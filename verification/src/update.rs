//! Updates of the configuration files: what changed between two versions of a registry,
//! what an update does with the local file, and how its outcome is reported.
use vstd::prelude::*;

use crate::feature_pack::{fp_key, has_key, spec_fp_short_name, FeaturePackRegistry, FeaturePackView};
use crate::version::VersionView;
use crate::text::{chars_list, chars_of, decimal, join, join_chars, push_all, push_decimal, string_of, strings_view};
use crate::wildfly_image::{has_id, ids_increasing, spec_image_full_name, WildFlyImageRegistry, WildFlyImageView};

verus! {

/// Filename for the WildFly images TOML configuration.
pub const WILDFLY_IMAGES_FILENAME: &'static str = "wildfly-images.toml";

/// Filename for the feature packs TOML configuration.
pub const FEATURE_PACKS_FILENAME: &'static str = "feature-packs.toml";

/// Describes the entries added and removed between two configuration versions.
#[derive(Debug, Clone, PartialEq, Eq)]
pub struct UpdateDiff {
    /// Display names of newly added entries.
    pub added: Vec<String>,
    /// Display names of removed entries.
    pub removed: Vec<String>,
}

/// Outcome of an update operation for a single configuration file.
#[derive(Debug, Clone, PartialEq, Eq)]
pub enum UpdateStatus {
    /// The file was downloaded for the first time.
    Downloaded {
        /// The config version of the downloaded file.
        version: u32,
        /// Number of entries in the downloaded file.
        count: usize,
    },
    /// The local file was updated to a newer remote version.
    Updated {
        /// The config version before the update.
        from_version: u32,
        /// The config version after the update.
        to_version: u32,
        /// Entries added and removed between the two versions.
        diff: UpdateDiff,
    },
    /// The local file is already at or ahead of the remote version.
    AlreadyUpToDate(u32),
}

/// Combined result of updating both WildFly images and feature packs configuration.
#[derive(Debug, Clone, PartialEq, Eq)]
pub struct UpdateResult {
    /// Status of the WildFly images update.
    pub wildfly_images: UpdateStatus,
    /// Status of the feature packs update.
    pub feature_packs: UpdateStatus,
}

/// A line listing `names` after `heading`, or nothing where there are no names.
pub open spec fn names_line(heading: Seq<char>, names: Seq<Seq<char>>) -> Seq<char> {
    if names.len() == 0 {
        Seq::<char>::empty()
    } else {
        heading + join(names, ", "@)
    }
}

/// The summary of an update status for the given label.
pub open spec fn status_summary(status: UpdateStatus, label: Seq<char>) -> Seq<char> {
    match status {
        UpdateStatus::Downloaded { version, count } => label + " downloaded ("@ + decimal(
            count as nat,
        ) + " entries, version "@ + decimal(version as nat) + ")"@,
        UpdateStatus::Updated { from_version, to_version, diff } => label
            + " updated from version "@ + decimal(from_version as nat) + " to "@ + decimal(
            to_version as nat,
        ) + names_line("\n  Added: "@, strings_view(diff.added@)) + names_line(
            "\n  Removed: "@,
            strings_view(diff.removed@),
        ),
        UpdateStatus::AlreadyUpToDate(version) => label + " already up to date (version "@
            + decimal(version as nat) + ")"@,
    }
}

/// Appends `heading` and the names joined by `", "`, where there are any names.
fn push_names_line(out: &mut Vec<char>, heading: &str, names: &Vec<String>)
    ensures
        final(out)@ == old(out)@ + names_line(heading@, strings_view(names@)),
{
    if names.len() > 0 {
        push_all(out, &chars_of(heading));
        let parts = chars_list(names);
        push_all(out, &join_chars(&parts, &chars_of(", ")));
    } else {
        assert(strings_view(names@).len() == 0);
        assert(out@ =~= old(out)@ + names_line(heading@, strings_view(names@)));
    }
}

impl UpdateStatus {
    /// Returns a human-readable summary line for the given label (e.g. `"WildFly images"`).
    pub fn summary(&self, label: &str) -> (r: String)
        ensures
            r@ == status_summary(*self, label@),
    {
        let mut out = chars_of(label);
        match self {
            UpdateStatus::Downloaded { version, count } => {
                push_all(&mut out, &chars_of(" downloaded ("));
                push_decimal(&mut out, *count as u64);
                push_all(&mut out, &chars_of(" entries, version "));
                push_decimal(&mut out, *version as u64);
                push_all(&mut out, &chars_of(")"));
            },
            UpdateStatus::Updated { from_version, to_version, diff } => {
                push_all(&mut out, &chars_of(" updated from version "));
                push_decimal(&mut out, *from_version as u64);
                push_all(&mut out, &chars_of(" to "));
                push_decimal(&mut out, *to_version as u64);
                push_names_line(&mut out, "\n  Added: ", &diff.added);
                push_names_line(&mut out, "\n  Removed: ", &diff.removed);
            },
            UpdateStatus::AlreadyUpToDate(version) => {
                push_all(&mut out, &chars_of(" already up to date (version "));
                push_decimal(&mut out, *version as u64);
                push_all(&mut out, &chars_of(")"));
            },
        }
        assert(out@ =~= status_summary(*self, label@));
        string_of(&out)
    }
}

/// The summary of both statuses, one line each.
pub open spec fn result_summary(r: UpdateResult) -> Seq<char> {
    status_summary(r.wildfly_images, "WildFly images"@) + "\n"@ + status_summary(
        r.feature_packs,
        "Feature packs"@,
    )
}

impl UpdateResult {
    /// Returns a human-readable summary of both update statuses.
    pub fn summary(&self) -> (r: String)
        ensures
            r@ == result_summary(*self),
    {
        let mut out = chars_of(self.wildfly_images.summary("WildFly images").as_str());
        push_all(&mut out, &chars_of("\n"));
        push_all(&mut out, &chars_of(self.feature_packs.summary("Feature packs").as_str()));
        string_of(&out)
    }
}

/// The images of `s` whose identifier `other` does not hold, in order.
pub open spec fn images_missing_from(s: Seq<WildFlyImageView>, other: Seq<WildFlyImageView>) -> Seq<
    WildFlyImageView,
> {
    s.filter(|i: WildFlyImageView| !has_id(other, i.identifier))
}

/// The full names of a list of images.
pub open spec fn image_names(s: Seq<WildFlyImageView>) -> Seq<Seq<char>> {
    s.map_values(|i: WildFlyImageView| spec_image_full_name(i))
}

/// The full names of the images of `s` whose identifier `other` does not hold, in
/// ascending identifier order.
fn image_names_missing(s: &WildFlyImageRegistry, other: &WildFlyImageRegistry) -> (r: Vec<String>)
    ensures
        strings_view(r@) == image_names(images_missing_from(s@, other@)),
{
    let ghost pred = |i: WildFlyImageView| !has_id(other@, i.identifier);
    let all = s.all();
    let mut r: Vec<String> = Vec::new();
    let mut i: usize = 0;
    while i < all.len()
        invariant
            i <= all@.len(),
            crate::wildfly_image::image_refs_view(all@) == s@,
            pred == (|i: WildFlyImageView| !has_id(other@, i.identifier)),
            strings_view(r@) == image_names(s@.take(i as int).filter(pred)),
        decreases all.len() - i,
    {
        let img = all[i];
        proof {
            assert(img@ == s@[i as int]);
            assert(s@.take(i + 1) =~= s@.take(i as int).push(img@));
            s@.take(i as int).lemma_filter_push(img@, pred);
        }
        if other.get(img.identifier).is_none() {
            let name = img.full_name();
            let ghost before = r@;
            r.push(name);
            proof {
                assert(strings_view(r@) =~= strings_view(before).push(name@));
                assert(image_names(s@.take(i + 1).filter(pred)) =~= image_names(
                    s@.take(i as int).filter(pred),
                ).push(spec_image_full_name(img@)));
            }
        }
        i = i + 1;
    }
    assert(s@.take(i as int) =~= s@);
    r
}

/// The changes from the images of `old` to those of `new`: the full names of the images
/// that only `new` holds, and of those that only `old` holds, each in ascending identifier
/// order.
pub fn images_diff(old: &WildFlyImageRegistry, new: &WildFlyImageRegistry) -> (r: UpdateDiff)
    ensures
        strings_view(r.added@) == image_names(images_missing_from(new@, old@)),
        strings_view(r.removed@) == image_names(images_missing_from(old@, new@)),
{
    UpdateDiff { added: image_names_missing(new, old), removed: image_names_missing(old, new) }
}

/// The packs of `s` whose shortcut and version `other` does not hold, in order.
pub open spec fn packs_missing_from(s: Seq<FeaturePackView>, other: Seq<FeaturePackView>) -> Seq<
    FeaturePackView,
> {
    s.filter(|f: FeaturePackView| !has_key(other, fp_key(f)))
}

/// The short names of a list of feature packs.
pub open spec fn pack_names(s: Seq<FeaturePackView>) -> Seq<Seq<char>> {
    s.map_values(|f: FeaturePackView| spec_fp_short_name(f))
}

/// The short names of the packs of `s` whose key `other` does not hold, in key order.
fn pack_names_missing(s: &FeaturePackRegistry, other: &FeaturePackRegistry) -> (r: Vec<String>)
    ensures
        strings_view(r@) == pack_names(packs_missing_from(s@, other@)),
{
    let ghost pred = |f: FeaturePackView| !has_key(other@, fp_key(f));
    let all = s.all();
    let mut r: Vec<String> = Vec::new();
    let mut i: usize = 0;
    while i < all.len()
        invariant
            i <= all@.len(),
            crate::feature_pack::pack_refs_view(all@) == s@,
            pred == (|f: FeaturePackView| !has_key(other@, fp_key(f))),
            strings_view(r@) == pack_names(s@.take(i as int).filter(pred)),
        decreases all.len() - i,
    {
        let f = all[i];
        proof {
            assert(f@ == s@[i as int]);
            assert(s@.take(i + 1) =~= s@.take(i as int).push(f@));
            s@.take(i as int).lemma_filter_push(f@, pred);
        }
        if !other.contains_key_of(f) {
            let name = f.short_name();
            let ghost before = r@;
            r.push(name);
            proof {
                assert(strings_view(r@) =~= strings_view(before).push(name@));
                assert(pack_names(s@.take(i + 1).filter(pred)) =~= pack_names(
                    s@.take(i as int).filter(pred),
                ).push(spec_fp_short_name(f@)));
            }
        }
        i = i + 1;
    }
    assert(s@.take(i as int) =~= s@);
    r
}

/// The changes from the feature packs of `old` to those of `new`: the short names of the
/// packs whose shortcut and version only `new` holds, and of those only `old` holds, each
/// in key order.
pub fn feature_packs_diff(old: &FeaturePackRegistry, new: &FeaturePackRegistry) -> (r: UpdateDiff)
    ensures
        strings_view(r.added@) == pack_names(packs_missing_from(new@, old@)),
        strings_view(r.removed@) == pack_names(packs_missing_from(old@, new@)),
{
    UpdateDiff { added: pack_names_missing(new, old), removed: pack_names_missing(old, new) }
}

impl UpdateDiff {
    /// The diff with nothing added and nothing removed.
    pub fn empty() -> (r: UpdateDiff)
        ensures
            r.added@.len() == 0,
            r.removed@.len() == 0,
    {
        UpdateDiff { added: Vec::new(), removed: Vec::new() }
    }
}

/// What is known of the local configuration file when an update starts.
#[derive(Debug, Clone, Copy, PartialEq, Eq)]
pub enum LocalConfig {
    /// There is no local file.
    Missing,
    /// The local file exists, but no config version can be read from it.
    Unreadable,
    /// The local file holds this config version.
    Version(u32),
}

/// What an update does with the local file once the remote file has been fetched.
#[derive(Debug, Clone, Copy, PartialEq, Eq)]
pub enum UpdateAction {
    /// Keep the local file, which holds this version, at or ahead of the remote one.
    Keep(u32),
    /// Overwrite the local file, which holds this older version, with the remote content.
    Replace(u32),
    /// Remove the unreadable local file, then write the remote content.
    RemoveAndDownload,
    /// Write the remote content where there was no local file.
    Download,
}

/// The action for a remote file at `remote_version`: a readable local file is kept where
/// it is at or ahead of the remote version and replaced otherwise; an unreadable one is
/// removed and the remote file downloaded; a missing one is downloaded.
pub open spec fn spec_plan_update(remote_version: u32, local: LocalConfig) -> UpdateAction {
    match local {
        LocalConfig::Missing => UpdateAction::Download,
        LocalConfig::Unreadable => UpdateAction::RemoveAndDownload,
        LocalConfig::Version(v) => if v >= remote_version {
            UpdateAction::Keep(v)
        } else {
            UpdateAction::Replace(v)
        },
    }
}

/// Decides what an update does with the local file, given the remote file's version.
pub fn plan_update(remote_version: u32, local: LocalConfig) -> (r: UpdateAction)
    ensures
        r == spec_plan_update(remote_version, local),
{
    match local {
        LocalConfig::Missing => UpdateAction::Download,
        LocalConfig::Unreadable => UpdateAction::RemoveAndDownload,
        LocalConfig::Version(v) => if v >= remote_version {
            UpdateAction::Keep(v)
        } else {
            UpdateAction::Replace(v)
        },
    }
}

/// The status that reports an action: the local version where it was kept, the change
/// from the local to the remote version with `diff` where it was replaced, and the remote
/// version and entry count where the remote file was downloaded.
pub open spec fn spec_update_status(
    action: UpdateAction,
    remote_version: u32,
    remote_count: usize,
    diff: UpdateDiff,
) -> UpdateStatus {
    match action {
        UpdateAction::Keep(v) => UpdateStatus::AlreadyUpToDate(v),
        UpdateAction::Replace(v) => UpdateStatus::Updated {
            from_version: v,
            to_version: remote_version,
            diff,
        },
        _ => UpdateStatus::Downloaded { version: remote_version, count: remote_count },
    }
}

/// Reports the outcome of `action` on a remote file at `remote_version` with
/// `remote_count` entries; `diff` is what changed where the local file was replaced.
pub fn update_status(action: UpdateAction, remote_version: u32, remote_count: usize, diff: UpdateDiff) -> (r:
    UpdateStatus)
    ensures
        r == spec_update_status(action, remote_version, remote_count, diff),
{
    match action {
        UpdateAction::Keep(v) => UpdateStatus::AlreadyUpToDate(v),
        UpdateAction::Replace(v) => UpdateStatus::Updated {
            from_version: v,
            to_version: remote_version,
            diff,
        },
        _ => UpdateStatus::Downloaded { version: remote_version, count: remote_count },
    }
}

/// An update writes over a readable local file only where the remote version is newer, and
/// then reports a change to a strictly greater version; otherwise it reports the local
/// version as up to date.
pub proof fn lemma_update_only_when_newer(
    remote_version: u32,
    local_version: u32,
    remote_count: usize,
    diff: UpdateDiff,
)
    ensures
        ({
            let action = spec_plan_update(remote_version, LocalConfig::Version(local_version));
            let status = spec_update_status(action, remote_version, remote_count, diff);
            &&& (action is Replace) <==> local_version < remote_version
            &&& status matches UpdateStatus::Updated { from_version, to_version, .. } ==> from_version
                < to_version
            &&& !(action is Replace) ==> status == UpdateStatus::AlreadyUpToDate(local_version)
        }),
{
}

/// A filter that no element passes leaves nothing.
proof fn lemma_filter_none<A>(s: Seq<A>, pred: spec_fn(A) -> bool)
    requires
        forall|k: int| 0 <= k < s.len() ==> !pred(#[trigger] s[k]),
    ensures
        s.filter(pred).len() == 0,
{
    if s.filter(pred).len() > 0 {
        let e = s.filter(pred)[0];
        s.lemma_filter_pred(pred, 0);
        assert(s.filter(pred).contains(e));
        s.lemma_filter_contains_rev(pred, e);
        let k = choose|k: int| 0 <= k < s.len() && s[k] == e;
        assert(!pred(s[k]));
    }
}

/// Diffing a registry against itself reports nothing added and nothing removed.
pub proof fn lemma_diff_with_itself_is_empty(images: Seq<WildFlyImageView>, packs: Seq<FeaturePackView>)
    ensures
        images_missing_from(images, images).len() == 0,
        packs_missing_from(packs, packs).len() == 0,
{
    let ip = |i: WildFlyImageView| !has_id(images, i.identifier);
    assert forall|k: int| 0 <= k < images.len() implies !ip(#[trigger] images[k]) by {
        assert(has_id(images, images[k].identifier));
    }
    lemma_filter_none(images, ip);
    let pp = |f: FeaturePackView| !has_key(packs, fp_key(f));
    assert forall|k: int| 0 <= k < packs.len() implies !pp(#[trigger] packs[k]) by {
        assert(has_key(packs, fp_key(packs[k])));
    }
    lemma_filter_none(packs, pp);
}

/// The identifiers of the images of `s` that `other` lacks are exactly the identifiers that
/// `s` holds and `other` does not.
proof fn lemma_missing_ids(s: Seq<WildFlyImageView>, other: Seq<WildFlyImageView>)
    ensures
        forall|id: u16| #[trigger] has_id(images_missing_from(s, other), id) <==> has_id(s, id) && !has_id(other, id),
{
    let pred = |i: WildFlyImageView| !has_id(other, i.identifier);
    let fl = s.filter(pred);
    assert forall|id: u16| #[trigger] has_id(images_missing_from(s, other), id) <==> has_id(s, id) && !has_id(other, id) by {
        if has_id(fl, id) {
            let k = choose|k: int| 0 <= k < fl.len() && fl[k].identifier == id;
            s.lemma_filter_pred(pred, k);
            assert(fl.contains(fl[k]));
            s.lemma_filter_contains_rev(pred, fl[k]);
            let j = choose|j: int| 0 <= j < s.len() && s[j] == fl[k];
            assert(s[j].identifier == id);
        }
        if has_id(s, id) && !has_id(other, id) {
            let j = choose|j: int| 0 <= j < s.len() && s[j].identifier == id;
            assert(pred(s[j]));
            s.lemma_filter_contains(pred, j);
            let k = choose|k: int| 0 <= k < fl.len() && fl[k] == s[j];
            assert(fl[k].identifier == id);
        }
    }
}

/// Keeping some images of a sequence with increasing identifiers keeps the identifiers
/// increasing.
proof fn lemma_filter_ids_increasing(s: Seq<WildFlyImageView>, pred: spec_fn(WildFlyImageView) -> bool)
    requires
        ids_increasing(s),
    ensures
        ids_increasing(s.filter(pred)),
        forall|k: int| 0 <= k < s.filter(pred).len() ==> s.contains(#[trigger] s.filter(pred)[k]),
    decreases s.len(),
{
    if s.len() > 0 {
        let d = s.drop_last();
        let l = s.last();
        assert(s =~= d.push(l));
        lemma_filter_ids_increasing(d, pred);
        d.lemma_filter_push(l, pred);
        let fd = d.filter(pred);
        assert forall|k: int| 0 <= k < fd.len() implies #[trigger] fd[k].identifier < l.identifier by {
            let j = choose|j: int| 0 <= j < d.len() && d[j] == fd[k];
            assert(s[j] == d[j]);
        }
        assert forall|k: int| 0 <= k < s.filter(pred).len() implies s.contains(#[trigger] s.filter(pred)[k]) by {
            if k < fd.len() {
                let j = choose|j: int| 0 <= j < d.len() && d[j] == fd[k];
                assert(s[j] == d[j]);
            } else {
                assert(s[s.len() - 1] == l);
            }
        }
    } else {
        assert(s.filter(pred) =~= Seq::<WildFlyImageView>::empty()) by {
            reveal_with_fuel(Seq::filter, 1);
        }
    }
}

/// The diff of two image registries goes by identifier: an identifier is among the added
/// images exactly when the new registry holds it and the old one does not, and among the
/// removed images exactly when the old registry holds it and the new one does not; every
/// reported image is one of its registry, and where the registries are in ascending
/// identifier order, so are the reported images.
pub proof fn lemma_images_diff_by_identifier(old: Seq<WildFlyImageView>, new: Seq<WildFlyImageView>)
    ensures
        forall|id: u16| #[trigger] has_id(images_missing_from(new, old), id) <==> has_id(new, id) && !has_id(old, id),
        forall|id: u16| #[trigger] has_id(images_missing_from(old, new), id) <==> has_id(old, id) && !has_id(new, id),
        forall|k: int| 0 <= k < images_missing_from(new, old).len() ==> new.contains(#[trigger] images_missing_from(new, old)[k]),
        forall|k: int| 0 <= k < images_missing_from(old, new).len() ==> old.contains(#[trigger] images_missing_from(old, new)[k]),
        ids_increasing(new) ==> ids_increasing(images_missing_from(new, old)),
        ids_increasing(old) ==> ids_increasing(images_missing_from(old, new)),
{
    lemma_missing_ids(new, old);
    lemma_missing_ids(old, new);
    let pn = |i: WildFlyImageView| !has_id(old, i.identifier);
    let po = |i: WildFlyImageView| !has_id(new, i.identifier);
    if ids_increasing(new) {
        lemma_filter_ids_increasing(new, pn);
    }
    if ids_increasing(old) {
        lemma_filter_ids_increasing(old, po);
    }
    assert forall|k: int| 0 <= k < images_missing_from(new, old).len() implies new.contains(#[trigger] images_missing_from(new, old)[k]) by {
        new.lemma_filter_pred(pn, k);
        assert(new.filter(pn).contains(new.filter(pn)[k]));
        new.lemma_filter_contains_rev(pn, new.filter(pn)[k]);
    }
    assert forall|k: int| 0 <= k < images_missing_from(old, new).len() implies old.contains(#[trigger] images_missing_from(old, new)[k]) by {
        old.lemma_filter_pred(po, k);
        assert(old.filter(po).contains(old.filter(po)[k]));
        old.lemma_filter_contains_rev(po, old.filter(po)[k]);
    }
}

/// The keys of the packs of `s` that `other` lacks are exactly the keys that `s` holds and
/// `other` does not.
proof fn lemma_missing_keys(s: Seq<FeaturePackView>, other: Seq<FeaturePackView>)
    ensures
        forall|k: (Seq<char>, VersionView)|
            #[trigger] has_key(packs_missing_from(s, other), k) <==> has_key(s, k) && !has_key(other, k),
{
    let pred = |f: FeaturePackView| !has_key(other, fp_key(f));
    let fl = s.filter(pred);
    assert forall|key: (Seq<char>, VersionView)|
        #[trigger] has_key(packs_missing_from(s, other), key) <==> has_key(s, key) && !has_key(other, key) by {
        if has_key(fl, key) {
            let k = choose|k: int| 0 <= k < fl.len() && fp_key(fl[k]) == key;
            s.lemma_filter_pred(pred, k);
            assert(fl.contains(fl[k]));
            s.lemma_filter_contains_rev(pred, fl[k]);
            let j = choose|j: int| 0 <= j < s.len() && s[j] == fl[k];
            assert(fp_key(s[j]) == key);
        }
        if has_key(s, key) && !has_key(other, key) {
            let j = choose|j: int| 0 <= j < s.len() && fp_key(s[j]) == key;
            assert(pred(s[j]));
            s.lemma_filter_contains(pred, j);
            let k = choose|k: int| 0 <= k < fl.len() && fl[k] == s[j];
            assert(fp_key(fl[k]) == key);
        }
    }
}

/// The diff of two feature pack registries goes by shortcut and version: a key is among the
/// added packs exactly when the new registry holds it and the old one does not, and among the
/// removed packs exactly when the old registry holds it and the new one does not.
pub proof fn lemma_packs_diff_by_key(old: Seq<FeaturePackView>, new: Seq<FeaturePackView>)
    ensures
        forall|k: (Seq<char>, VersionView)|
            #[trigger] has_key(packs_missing_from(new, old), k) <==> has_key(new, k) && !has_key(old, k),
        forall|k: (Seq<char>, VersionView)|
            #[trigger] has_key(packs_missing_from(old, new), k) <==> has_key(old, k) && !has_key(new, k),
{
    lemma_missing_keys(new, old);
    lemma_missing_keys(old, new);
}

} // verus!
