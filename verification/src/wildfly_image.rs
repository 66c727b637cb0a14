//! WildFly container image metadata and registry.
use vstd::prelude::*;

use crate::text::{chars_of, clone_strings, decimal, push_all, push_decimal, string_of, strings_view};
use crate::version::{Version, VersionView};
use vstd::std_specs::cmp::PartialOrdSpecImpl;

verus! {

/// The version string used to refer to the WildFly development build.
pub const DEVELOPMENT_VERSION: &'static str = "dev";

/// The Docker tag used for the WildFly development image.
pub const DEVELOPMENT_TAG: &'static str = "development";

/// A WildFly container image with version and registry metadata.
///
/// Images are ordered by their identifier, which encodes `major * 10 + minor`
/// (e.g. `261` for WildFly 26.1).
#[derive(Clone, Debug, PartialEq, Eq, Hash)]
pub struct WildFlyImage {
    /// Numeric identifier encoding `major * 10 + minor` (e.g. `340` for WildFly 34.0).
    pub identifier: u16,
    /// Full semantic version of the WildFly release (e.g. `34.0.1`).
    pub version: Version,
    /// Short version string for display (e.g. `"34.0"` or `"26.1"`).
    pub short_version: String,
    /// WildFly Core version bundled with this release.
    pub core_version: Version,
    /// Full WildFly release version string (e.g. `"34.0.1.Final"`).
    pub release_version: String,
    /// Full WildFly Core release version string (e.g. `"26.0.1.Final"`).
    pub core_release_version: String,
    /// Container image tag (e.g. `"34.0.1.Final-jdk21"`).
    pub image_tag: String,
    /// Container registry and repository (e.g. `"quay.io/wildfly/wildfly"`).
    pub repository: String,
    /// Supported platform architectures (e.g. `["linux/amd64", "linux/arm64"]`).
    pub platforms: Vec<String>,
}

/// The mathematical value of a [`WildFlyImage`].
pub struct WildFlyImageView {
    pub identifier: u16,
    pub version: VersionView,
    pub short_version: Seq<char>,
    pub core_version: VersionView,
    pub release_version: Seq<char>,
    pub core_release_version: Seq<char>,
    pub image_tag: Seq<char>,
    pub repository: Seq<char>,
    pub platforms: Seq<Seq<char>>,
}

impl View for WildFlyImage {
    type V = WildFlyImageView;

    open spec fn view(&self) -> WildFlyImageView {
        WildFlyImageView {
            identifier: self.identifier,
            version: self.version@,
            short_version: self.short_version@,
            core_version: self.core_version@,
            release_version: self.release_version@,
            core_release_version: self.core_release_version@,
            image_tag: self.image_tag@,
            repository: self.repository@,
            platforms: strings_view(self.platforms@),
        }
    }
}

/// The order of images: by identifier alone.
pub open spec fn image_order(a: &WildFlyImage, b: &WildFlyImage) -> Option<core::cmp::Ordering> {
    if a.identifier < b.identifier {
        Some(core::cmp::Ordering::Less)
    } else if a.identifier == b.identifier {
        Some(core::cmp::Ordering::Equal)
    } else {
        Some(core::cmp::Ordering::Greater)
    }
}

/// Images are ordered by their identifier.
impl PartialOrd for WildFlyImage {
    fn partial_cmp(&self, other: &Self) -> (r: Option<core::cmp::Ordering>) {
        if self.identifier < other.identifier {
            Some(core::cmp::Ordering::Less)
        } else if self.identifier == other.identifier {
            Some(core::cmp::Ordering::Equal)
        } else {
            Some(core::cmp::Ordering::Greater)
        }
    }
}

impl PartialOrdSpecImpl for WildFlyImage {
    open spec fn obeys_partial_cmp_spec() -> bool {
        true
    }

    open spec fn partial_cmp_spec(&self, other: &Self) -> Option<core::cmp::Ordering> {
        image_order(self, other)
    }
}

/// The version `0.0.0`.
pub open spec fn zero_version() -> VersionView {
    VersionView { major: 0, minor: 0, patch: 0, pre: Seq::empty(), build: Seq::empty() }
}

/// The development build: identifier `0`, version `0.0.0`, every text empty.
pub open spec fn dev_image() -> WildFlyImageView {
    WildFlyImageView {
        identifier: 0,
        version: zero_version(),
        short_version: Seq::empty(),
        core_version: zero_version(),
        release_version: Seq::empty(),
        core_release_version: Seq::empty(),
        image_tag: Seq::empty(),
        repository: Seq::empty(),
        platforms: Seq::empty(),
    }
}

/// Returns a [`WildFlyImage`] representing the WildFly development build.
///
/// The development image has an identifier of `0` and builds from the WildFly Git repository
/// instead of pulling a container image.
pub fn wildfly_dev() -> (r: WildFlyImage)
    ensures
        r@ == dev_image(),
{
    let r = WildFlyImage {
        identifier: 0,
        version: Version::new(0, 0, 0),
        short_version: String::new(),
        core_version: Version::new(0, 0, 0),
        release_version: String::new(),
        core_release_version: String::new(),
        image_tag: String::new(),
        repository: String::new(),
        platforms: Vec::new(),
    };
    assert(strings_view(r.platforms@) =~= Seq::<Seq<char>>::empty());
    r
}

/// The numeric identifier of WildFly `major.minor`: `major * 10 + minor`.
pub open spec fn spec_identifier(major: u16, minor: u16) -> int {
    major * 10 + minor
}

/// Computes the numeric identifier for a WildFly version: `major * 10 + minor`.
///
/// For example, WildFly 26.1 has identifier `261`, and WildFly 34.0 has identifier `340`.
pub fn identifier(major: u16, minor: u16) -> (r: u16)
    requires
        spec_identifier(major, minor) <= u16::MAX,
    ensures
        r == spec_identifier(major, minor),
{
    major * 10 + minor
}

/// Extracts the major version from an identifier (e.g. `340` → `34`).
pub fn identifier_major(id: u16) -> (r: u16)
    ensures
        r == id / 10,
{
    id / 10
}

/// Extracts the minor version from an identifier (e.g. `261` → `1`).
pub fn identifier_minor(id: u16) -> (r: u16)
    ensures
        r == id % 10,
{
    id % 10
}

/// The major and minor version read back from an identifier are the ones it was made of,
/// for a minor version below ten.
pub proof fn lemma_identifier_roundtrip(major: u16, minor: u16)
    requires
        minor < 10,
        spec_identifier(major, minor) <= u16::MAX,
    ensures
        spec_identifier(major, minor) / 10 == major,
        spec_identifier(major, minor) % 10 == minor,
{
    let id = spec_identifier(major, minor);
    assert(id / 10 == major && id % 10 == minor) by (nonlinear_arith)
        requires
            id == major * 10 + minor,
            0 <= minor < 10,
            0 <= major,
    ;
}

/// The image reference: the WildFly Git repository for the development build, else
/// `repository:image_tag`.
pub open spec fn spec_image_ref(i: WildFlyImageView) -> Seq<char> {
    if i.identifier == 0 {
        "https://github.com/wildfly/wildfly.git"@
    } else {
        i.repository + seq![':'] + i.image_tag
    }
}

/// The short name: `"dev"` for the development build, else the short version.
pub open spec fn spec_image_short_name(i: WildFlyImageView) -> Seq<char> {
    if i.identifier == 0 {
        DEVELOPMENT_VERSION@
    } else {
        i.short_version
    }
}

/// The full name: `"WildFly "` and the short name.
pub open spec fn spec_image_full_name(i: WildFlyImageView) -> Seq<char> {
    "WildFly "@ + spec_image_short_name(i)
}

impl WildFlyImage {
    /// A copy of this image.
    pub fn cloned(&self) -> (r: WildFlyImage)
        ensures
            r@ == self@,
    {
        WildFlyImage {
            identifier: self.identifier,
            version: self.version.cloned(),
            short_version: self.short_version.clone(),
            core_version: self.core_version.cloned(),
            release_version: self.release_version.clone(),
            core_release_version: self.core_release_version.clone(),
            image_tag: self.image_tag.clone(),
            repository: self.repository.clone(),
            platforms: clone_strings(&self.platforms),
        }
    }

    /// Returns the full container image reference (e.g. `"quay.io/wildfly/wildfly:34.0.1.Final"`),
    /// or the WildFly Git repository URL for the development build.
    pub fn image_ref(&self) -> (r: String)
        ensures
            r@ == spec_image_ref(self@),
    {
        if self.is_dev() {
            String::from_str("https://github.com/wildfly/wildfly.git")
        } else {
            let mut out = chars_of(self.repository.as_str());
            out.push(':');
            push_all(&mut out, &chars_of(self.image_tag.as_str()));
            assert(out@ =~= spec_image_ref(self@));
            string_of(&out)
        }
    }

    /// Returns `true` if this is the development build (identifier `0`).
    pub fn is_dev(&self) -> (r: bool)
        ensures
            r == (self.identifier == 0),
    {
        self.identifier == 0
    }

    /// Returns a short human-readable name: `"dev"` for development, or `"34.0"` / `"26.1"` for releases.
    pub fn short_name(&self) -> (r: String)
        ensures
            r@ == spec_image_short_name(self@),
    {
        if self.is_dev() {
            String::from_str(DEVELOPMENT_VERSION)
        } else {
            self.short_version.clone()
        }
    }

    /// Returns a full branded name: `"WildFly dev"` for development, or `"WildFly 34.0"` for releases.
    pub fn full_name(&self) -> (r: String)
        ensures
            r@ == spec_image_full_name(self@),
    {
        let mut out = chars_of("WildFly ");
        let name = self.short_name();
        push_all(&mut out, &chars_of(name.as_str()));
        string_of(&out)
    }

    /// Returns the HTTP port for this image (base `8000` + identifier as port offset).
    pub fn http_port(&self) -> (r: u16)
        requires
            8000 + self.identifier <= u16::MAX,
        ensures
            r == 8000 + self.identifier,
    {
        8000 + self.identifier
    }

    /// Returns the management port for this image (base `9000` + identifier as port offset).
    pub fn management_port(&self) -> (r: u16)
        requires
            9000 + self.identifier <= u16::MAX,
        ensures
            r == 9000 + self.identifier,
    {
        9000 + self.identifier
    }
}


/// One `[[wildfly_images]]` entry of the images configuration.
#[derive(Clone, Debug, PartialEq, Eq)]
pub struct WildFlyImageEntry {
    pub major: u16,
    pub minor: u16,
    pub version: Version,
    pub core_version: Version,
    pub release_version: String,
    pub core_release_version: String,
    pub image_tag: String,
    pub repository: String,
    pub platforms: Vec<String>,
}

/// The mathematical value of a [`WildFlyImageEntry`].
pub struct WildFlyImageEntryView {
    pub major: u16,
    pub minor: u16,
    pub version: VersionView,
    pub core_version: VersionView,
    pub release_version: Seq<char>,
    pub core_release_version: Seq<char>,
    pub image_tag: Seq<char>,
    pub repository: Seq<char>,
    pub platforms: Seq<Seq<char>>,
}

impl View for WildFlyImageEntry {
    type V = WildFlyImageEntryView;

    open spec fn view(&self) -> WildFlyImageEntryView {
        WildFlyImageEntryView {
            major: self.major,
            minor: self.minor,
            version: self.version@,
            core_version: self.core_version@,
            release_version: self.release_version@,
            core_release_version: self.core_release_version@,
            image_tag: self.image_tag@,
            repository: self.repository@,
            platforms: strings_view(self.platforms@),
        }
    }
}

/// The image an entry describes: identifier `major * 10 + minor`, short version
/// `"major.minor"`, every other field taken over.
pub open spec fn entry_image(e: WildFlyImageEntryView) -> WildFlyImageView {
    WildFlyImageView {
        identifier: spec_identifier(e.major, e.minor) as u16,
        version: e.version,
        short_version: decimal(e.major as nat) + seq!['.'] + decimal(e.minor as nat),
        core_version: e.core_version,
        release_version: e.release_version,
        core_release_version: e.core_release_version,
        image_tag: e.image_tag,
        repository: e.repository,
        platforms: e.platforms,
    }
}

/// The short version of an image names its identifier: the major version
/// (`identifier / 10`), a dot and the minor digit (`identifier % 10`).
pub open spec fn label_matches(i: WildFlyImageView) -> bool {
    i.short_version == decimal((i.identifier / 10) as nat) + seq!['.'] + decimal(
        (i.identifier % 10) as nat,
    )
}

/// Whether the identifier of an entry fits in a `u16`.
pub open spec fn entry_fits(e: WildFlyImageEntryView) -> bool {
    spec_identifier(e.major, e.minor) <= u16::MAX
}

/// The views of a list of images.
pub open spec fn images_view(v: Seq<WildFlyImage>) -> Seq<WildFlyImageView> {
    v.map_values(|i: WildFlyImage| i@)
}

/// The views of a list of references to images.
pub open spec fn image_refs_view(v: Seq<&WildFlyImage>) -> Seq<WildFlyImageView> {
    v.map_values(|i: &WildFlyImage| i@)
}

/// The views of a list of entries.
pub open spec fn entries_view(v: Seq<WildFlyImageEntry>) -> Seq<WildFlyImageEntryView> {
    v.map_values(|e: WildFlyImageEntry| e@)
}

/// Identifiers strictly increase along the sequence.
pub open spec fn ids_increasing(s: Seq<WildFlyImageView>) -> bool {
    forall|i: int, j: int| 0 <= i < j < s.len() ==> s[i].identifier < s[j].identifier
}

/// Some image in `s` has identifier `id`.
pub open spec fn has_id(s: Seq<WildFlyImageView>, id: u16) -> bool {
    exists|i: int| 0 <= i < s.len() && s[i].identifier == id
}

/// The image with identifier `id` in `s`, if any.
pub open spec fn image_with_id(s: Seq<WildFlyImageView>, id: u16) -> Option<WildFlyImageView> {
    if has_id(s, id) {
        Some(s[choose|i: int| 0 <= i < s.len() && s[i].identifier == id])
    } else {
        None
    }
}

/// The images of `s` keyed by identifier.
pub open spec fn image_map(s: Seq<WildFlyImageView>) -> Map<u16, WildFlyImageView> {
    Map::new(|id: u16| has_id(s, id), |id: u16| image_with_id(s, id)->0)
}

/// The images the entries describe, keyed by identifier; a later entry replaces an
/// earlier one with the same identifier.
pub open spec fn entries_map(es: Seq<WildFlyImageEntryView>) -> Map<u16, WildFlyImageView>
    decreases es.len(),
{
    if es.len() == 0 {
        Map::empty()
    } else {
        let img = entry_image(es.last());
        entries_map(es.drop_last()).insert(img.identifier, img)
    }
}

/// In a sequence with increasing identifiers, the image at position `i` is the one with
/// its identifier.
pub proof fn lemma_image_at(s: Seq<WildFlyImageView>, i: int)
    requires
        ids_increasing(s),
        0 <= i < s.len(),
    ensures
        has_id(s, s[i].identifier),
        image_with_id(s, s[i].identifier) == Some(s[i]),
        image_map(s).dom().contains(s[i].identifier),
        image_map(s)[s[i].identifier] == s[i],
{
    let id = s[i].identifier;
    assert(has_id(s, id));
    let k = choose|k: int| 0 <= k < s.len() && s[k].identifier == id;
    if k < i {
        assert(s[k].identifier < s[i].identifier);
    }
    if i < k {
        assert(s[i].identifier < s[k].identifier);
    }
}

/// Registry of [`WildFlyImage`] entries.
///
/// Images are kept in ascending identifier order (oldest to newest), one per identifier.
pub struct WildFlyImageRegistry {
    wildfly_images: Vec<WildFlyImage>,
}

impl View for WildFlyImageRegistry {
    type V = Seq<WildFlyImageView>;

    closed spec fn view(&self) -> Seq<WildFlyImageView> {
        images_view(self.wildfly_images@)
    }
}

/// Inserts `img` into a sequence ordered by identifier, replacing an image with the same
/// identifier.
fn insert_image(images: &mut Vec<WildFlyImage>, img: WildFlyImage)
    requires
        ids_increasing(images_view(old(images)@)),
    ensures
        ids_increasing(images_view(final(images)@)),
        image_map(images_view(final(images)@)) == image_map(images_view(old(images)@)).insert(
            img.identifier,
            img@,
        ),
        forall|j: int|
            0 <= j < final(images)@.len() ==> images_view(final(images)@)[j] == img@ || images_view(
                old(images)@,
            ).contains(#[trigger] images_view(final(images)@)[j]),
{
    let ghost old_v = images_view(images@);
    let id = img.identifier;
    let mut p: usize = 0;
    while p < images.len() && images[p].identifier < id
        invariant
            p <= images.len(),
            images_view(images@) == old_v,
            forall|k: int| 0 <= k < p ==> old_v[k].identifier < id,
        decreases images.len() - p,
    {
        p = p + 1;
    }
    let ghost new_img = img@;
    if p < images.len() && images[p].identifier == id {
        images.set(p, img);
        let ghost nv = images_view(images@);
        assert(nv =~= old_v.update(p as int, new_img));
        assert forall|i: int| 0 <= i < nv.len() implies nv[i].identifier == old_v[i].identifier by {}
        assert forall|j: int| 0 <= j < nv.len() implies nv[j] == new_img || old_v.contains(#[trigger] nv[j]) by {
            if j != p {
                assert(nv[j] == old_v[j]);
            }
        }
        assert(ids_increasing(nv));
        proof {
            let m = image_map(old_v).insert(id, new_img);
            assert forall|k: u16| #[trigger] image_map(nv).dom().contains(k) <==> m.dom().contains(k) by {
                if has_id(nv, k) {
                    let j = choose|j: int| 0 <= j < nv.len() && nv[j].identifier == k;
                    if j != p {
                        assert(old_v[j] == nv[j]);
                    }
                }
                if has_id(old_v, k) {
                    let j = choose|j: int| 0 <= j < old_v.len() && old_v[j].identifier == k;
                    assert(nv[j].identifier == k);
                }
                if k == id {
                    assert(nv[p as int].identifier == k);
                }
            }
            assert forall|k: u16| #[trigger] image_map(nv).dom().contains(k) implies image_map(nv)[k] == m[k] by {
                let j = choose|j: int| 0 <= j < nv.len() && nv[j].identifier == k;
                lemma_image_at(nv, j);
                if j != p {
                    lemma_image_at(old_v, j);
                    assert(old_v[p as int].identifier == id);
                    if j < p {
                        assert(old_v[j].identifier < old_v[p as int].identifier);
                    } else {
                        assert(old_v[p as int].identifier < old_v[j].identifier);
                    }
                    assert(k != id);
                }
            }
            assert(image_map(nv) =~= m);
        }
    } else {
        images.insert(p, img);
        let ghost nv = images_view(images@);
        assert(nv =~= old_v.insert(p as int, new_img));
        assert forall|j: int| 0 <= j < nv.len() implies nv[j] == new_img || old_v.contains(#[trigger] nv[j]) by {
            if j < p {
                assert(nv[j] == old_v[j]);
            } else if j > p {
                assert(nv[j] == old_v[j - 1]);
            }
        }
        assert forall|i: int, j: int| 0 <= i < j < nv.len() implies nv[i].identifier < nv[j].identifier by {
            if i < p && j > p {
                assert(nv[j] == old_v[j - 1]);
            } else if i > p {
                assert(nv[i] == old_v[i - 1]);
                assert(nv[j] == old_v[j - 1]);
            } else if i == p && j > p {
                assert(nv[j] == old_v[j - 1]);
                if j - 1 > p {
                    assert(old_v[p as int].identifier < old_v[j - 1].identifier);
                }
            }
        }
        proof {
            let m = image_map(old_v).insert(id, new_img);
            assert forall|k: u16| #[trigger] image_map(nv).dom().contains(k) <==> m.dom().contains(k) by {
                if has_id(nv, k) {
                    let j = choose|j: int| 0 <= j < nv.len() && nv[j].identifier == k;
                    if j < p {
                        assert(old_v[j] == nv[j]);
                    } else if j > p {
                        assert(old_v[j - 1] == nv[j]);
                    }
                }
                if has_id(old_v, k) {
                    let j = choose|j: int| 0 <= j < old_v.len() && old_v[j].identifier == k;
                    if j < p {
                        assert(nv[j].identifier == k);
                    } else {
                        assert(nv[j + 1].identifier == k);
                    }
                }
                if k == id {
                    assert(nv[p as int].identifier == k);
                }
            }
            assert forall|k: u16| #[trigger] image_map(nv).dom().contains(k) implies image_map(nv)[k] == m[k] by {
                let j = choose|j: int| 0 <= j < nv.len() && nv[j].identifier == k;
                lemma_image_at(nv, j);
                if j < p {
                    lemma_image_at(old_v, j);
                    assert(old_v[j] == nv[j]);
                } else if j > p {
                    lemma_image_at(old_v, j - 1);
                    assert(old_v[j - 1] == nv[j]);
                }
            }
            assert(image_map(nv) =~= m);
        }
    }
}

/// The image an entry describes.
fn image_of_entry(e: WildFlyImageEntry) -> (r: WildFlyImage)
    requires
        entry_fits(e@),
    ensures
        r@ == entry_image(e@),
{
    let id = identifier(e.major, e.minor);
    let mut sv: Vec<char> = Vec::new();
    push_decimal(&mut sv, e.major as u64);
    sv.push('.');
    push_decimal(&mut sv, e.minor as u64);
    let r = WildFlyImage {
        identifier: id,
        version: e.version,
        short_version: string_of(&sv),
        core_version: e.core_version,
        release_version: e.release_version,
        core_release_version: e.core_release_version,
        image_tag: e.image_tag,
        repository: e.repository,
        platforms: e.platforms,
    };
    assert(r@.short_version =~= entry_image(e@).short_version);
    r
}

impl WildFlyImageRegistry {
    /// The images are ordered by strictly increasing identifier.
    #[verifier::type_invariant]
    pub closed spec fn ordered(&self) -> bool {
        ids_increasing(images_view(self.wildfly_images@))
    }

    /// What [`Self::ordered`] states, in terms of the registry's view.
    pub proof fn lemma_ordered(&self)
        requires
            self.ordered(),
        ensures
            ids_increasing(self@),
    {
    }

    /// Builds the registry from configuration entries, in order: one image per identifier,
    /// a later entry replacing an earlier one with the same identifier.
    pub fn from_entries(entries: Vec<WildFlyImageEntry>) -> (r: Self)
        requires
            forall|i: int| 0 <= i < entries@.len() ==> entry_fits(#[trigger] entries@[i]@),
        ensures
            ids_increasing(r@),
            image_map(r@) == entries_map(entries_view(entries@)),
            (forall|k: int| 0 <= k < entries@.len() ==> #[trigger] entries@[k].minor < 10) ==> forall|
                j: int,
            |
                0 <= j < r@.len() ==> label_matches(#[trigger] r@[j]),
    {
        let ghost all = entries_view(entries@);
        let total = entries.len();
        assert(all.len() == total);
        let mut entries = entries;
        let mut images: Vec<WildFlyImage> = Vec::new();
        let mut n: usize = 0;
        assert(image_map(images_view(images@)) =~= Map::<u16, WildFlyImageView>::empty());
        assert(all.take(0) =~= Seq::<WildFlyImageEntryView>::empty());
        while entries.len() > 0
            invariant
                n + entries@.len() == all.len(),
                all.len() <= usize::MAX,
                entries_view(entries@) == all.skip(n as int),
                forall|i: int| 0 <= i < all.len() ==> entry_fits(#[trigger] all[i]),
                ids_increasing(images_view(images@)),
                image_map(images_view(images@)) == entries_map(all.take(n as int)),
                (forall|k: int| 0 <= k < all.len() ==> #[trigger] all[k].minor < 10) ==> forall|j: int|
                    0 <= j < images@.len() ==> label_matches(#[trigger] images_view(images@)[j]),
            decreases entries@.len(),
        {
            let ghost before = entries@;
            let e = entries.remove(0);
            proof {
                assert(e@ == entries_view(before)[0]);
                assert(entries@ =~= before.skip(1));
            }
            let ghost ev = e@;
            assert(ev == all[n as int]);
            let img = image_of_entry(e);
            proof {
                if forall|k: int| 0 <= k < all.len() ==> #[trigger] all[k].minor < 10 {
                    assert(all[n as int].minor < 10);
                    let id = spec_identifier(ev.major, ev.minor);
                    assert(id / 10 == ev.major && id % 10 == ev.minor) by (nonlinear_arith)
                        requires
                            id == ev.major * 10 + ev.minor,
                            ev.minor < 10,
                            0 <= ev.major,
                    ;
                    assert(label_matches(img@));
                }
            }
            let ghost prev = images_view(images@);
            insert_image(&mut images, img);
            proof {
                if forall|k: int| 0 <= k < all.len() ==> #[trigger] all[k].minor < 10 {
                    assert forall|j: int| 0 <= j < images@.len() implies label_matches(#[trigger] images_view(images@)[j]) by {
                        if images_view(images@)[j] != img@ {
                            let w = choose|w: int| 0 <= w < prev.len() && prev[w] == images_view(images@)[j];
                            assert(label_matches(prev[w]));
                        }
                    }
                }
            }
            proof {
                assert(all.take(n + 1).drop_last() =~= all.take(n as int));
                assert(all.take(n + 1).last() == ev);
                assert(entries_view(entries@) =~= entries_view(before).skip(1));
                assert(entries_view(entries@) =~= all.skip(n + 1));
            }
            n = n + 1;
        }
        assert(all.take(n as int) =~= all);
        WildFlyImageRegistry { wildfly_images: images }
    }
}


impl WildFlyImageRegistry {
    /// Returns the image with the given identifier, or `None` if not found.
    pub fn get(&self, id: u16) -> (r: Option<&WildFlyImage>)
        ensures
            r is Some <==> has_id(self@, id),
            r matches Some(img) ==> Some(img@) == image_with_id(self@, id),
    {
        proof {
            use_type_invariant(self);
        }
        let mut i: usize = 0;
        while i < self.wildfly_images.len()
            invariant
                i <= self.wildfly_images@.len(),
                ids_increasing(self@),
                forall|k: int| 0 <= k < i ==> #[trigger] self@[k].identifier != id,
            decreases self.wildfly_images.len() - i,
        {
            if self.wildfly_images[i].identifier == id {
                proof {
                    lemma_image_at(self@, i as int);
                }
                return Some(&self.wildfly_images[i]);
            }
            i = i + 1;
        }
        None
    }

    /// Returns the oldest (lowest identifier) image in the registry.
    pub fn first(&self) -> (r: Option<&WildFlyImage>)
        ensures
            r is Some <==> self@.len() > 0,
            r matches Some(img) ==> img@ == self@[0],
    {
        if self.wildfly_images.len() > 0 {
            Some(&self.wildfly_images[0])
        } else {
            None
        }
    }

    /// Returns the newest (highest identifier) image in the registry.
    pub fn last(&self) -> (r: Option<&WildFlyImage>)
        ensures
            r is Some <==> self@.len() > 0,
            r matches Some(img) ==> img@ == self@.last(),
    {
        let n = self.wildfly_images.len();
        if n > 0 {
            Some(&self.wildfly_images[n - 1])
        } else {
            None
        }
    }

    /// Returns all images with identifiers in the inclusive range `[from, to]`, in order.
    pub fn range(&self, from: u16, to: u16) -> (r: Vec<&WildFlyImage>)
        ensures
            image_refs_view(r@) == self@.filter(|i: WildFlyImageView| from <= i.identifier <= to),
    {
        let ghost pred = |i: WildFlyImageView| from <= i.identifier <= to;
        let mut r: Vec<&WildFlyImage> = Vec::new();
        let mut i: usize = 0;
        while i < self.wildfly_images.len()
            invariant
                i <= self.wildfly_images@.len(),
                image_refs_view(r@) == self@.take(i as int).filter(pred),
                pred == (|i: WildFlyImageView| from <= i.identifier <= to),
            decreases self.wildfly_images.len() - i,
        {
            let img = &self.wildfly_images[i];
            proof {
                assert(self@.take(i + 1) =~= self@.take(i as int).push(img@));
                self@.take(i as int).lemma_filter_push(img@, pred);
                assert(pred(img@) == (from <= img.identifier && img.identifier <= to));
                assert(img@ == self@[i as int]);
            }
            let ghost before = r@;
            if from <= img.identifier && img.identifier <= to {
                r.push(img);
                proof {
                    assert(r@ == before.push(img));
                    assert(image_refs_view(before).len() == before.len());
                    assert(image_refs_view(r@) =~= image_refs_view(before).push(img@));
                }
            }
            i = i + 1;
            assert(image_refs_view(r@) =~= self@.take(i as int).filter(pred));
        }
        assert(self@.take(i as int) =~= self@);
        r
    }

    /// Returns all images in version order.
    pub fn all(&self) -> (r: Vec<&WildFlyImage>)
        ensures
            image_refs_view(r@) == self@,
    {
        let mut r: Vec<&WildFlyImage> = Vec::new();
        let mut i: usize = 0;
        while i < self.wildfly_images.len()
            invariant
                i <= self.wildfly_images@.len(),
                image_refs_view(r@) == self@.take(i as int),
            decreases self.wildfly_images.len() - i,
        {
            let ghost before = r@;
            let img = &self.wildfly_images[i];
            r.push(img);
            proof {
                assert(image_refs_view(before).len() == before.len());
                assert(image_refs_view(r@) =~= image_refs_view(before).push(img@));
                assert(self@.take(i + 1) =~= self@.take(i as int).push(img@));
            }
            i = i + 1;
            assert(image_refs_view(r@) =~= self@.take(i as int));
        }
        assert(self@.take(i as int) =~= self@);
        r
    }

    /// Returns the number of images in the registry.
    pub fn len(&self) -> (r: usize)
        ensures
            r == self@.len(),
    {
        self.wildfly_images.len()
    }

    /// Returns `true` if the registry contains no images.
    pub fn is_empty(&self) -> (r: bool)
        ensures
            r == (self@.len() == 0),
    {
        self.wildfly_images.len() == 0
    }

    /// Returns the image identifiers in ascending order.
    pub fn keys(&self) -> (r: Vec<u16>)
        ensures
            r@ == self@.map_values(|i: WildFlyImageView| i.identifier),
    {
        let mut r: Vec<u16> = Vec::new();
        let mut i: usize = 0;
        while i < self.wildfly_images.len()
            invariant
                i <= self.wildfly_images@.len(),
                r@ == self@.take(i as int).map_values(|i: WildFlyImageView| i.identifier),
            decreases self.wildfly_images.len() - i,
        {
            r.push(self.wildfly_images[i].identifier);
            i = i + 1;
            assert(r@ =~= self@.take(i as int).map_values(|i: WildFlyImageView| i.identifier));
        }
        assert(self@.take(i as int) =~= self@);
        r
    }
}

} // verus!
