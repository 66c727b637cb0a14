//! Galleon feature pack metadata and registry.
use vstd::prelude::*;

use crate::order::{is_order, lemma_pair_order, lemma_str_order, pair_order, str_order};
use crate::text::{chars_eq, chars_of, push_all, string_of, strings_of, strings_view, views};
use crate::version::{lemma_version_order, semver_parsed, version_order, version_text, Version, VersionView};

verus! {

/// A WildFly Galleon feature pack with Maven coordinates and version metadata.
///
/// Feature packs extend WildFly with additional capabilities (e.g. AI, GraphQL, gRPC).
/// Each feature pack has a short alias (`shortcut`) used in the version expression language
/// and Maven coordinates for downloading the documentation archive.
#[derive(Clone, Debug, PartialEq, Eq, Hash)]
pub struct FeaturePack {
    /// Short alias used in expressions (e.g. `"ai"`, `"graphql"`).
    pub shortcut: String,
    /// Human-readable name (e.g. `"AI"`, `"GraphQL"`).
    pub name: String,
    /// Maven group ID (e.g. `"org.wildfly.generative-ai"`).
    pub group_id: String,
    /// Maven artifact ID (e.g. `"wildfly-ai-feature-pack"`).
    pub artifact_id: String,
    /// Zero-based index assigned to this shortcut, used for port offset computation.
    pub shortcut_index: u16,
    /// Zero-based index of this version within its shortcut group.
    pub version_index: u16,
    /// Semantic version (e.g. `0.9.0`).
    pub version: Version,
    /// Release version string, which may differ from the semantic version (e.g. `"2.7.0.Final"`).
    pub release_version: String,
}

/// The mathematical value of a [`FeaturePack`].
pub struct FeaturePackView {
    pub shortcut: Seq<char>,
    pub name: Seq<char>,
    pub group_id: Seq<char>,
    pub artifact_id: Seq<char>,
    pub shortcut_index: u16,
    pub version_index: u16,
    pub version: VersionView,
    pub release_version: Seq<char>,
}

impl View for FeaturePack {
    type V = FeaturePackView;

    open spec fn view(&self) -> FeaturePackView {
        FeaturePackView {
            shortcut: self.shortcut@,
            name: self.name@,
            group_id: self.group_id@,
            artifact_id: self.artifact_id@,
            shortcut_index: self.shortcut_index,
            version_index: self.version_index,
            version: self.version@,
            release_version: self.release_version@,
        }
    }
}

/// The port offset of a feature pack: `10000 + shortcut_index * 100 + version_index`.
pub open spec fn spec_port_offset(f: FeaturePackView) -> int {
    10000 + f.shortcut_index * 100 + f.version_index
}

/// `s` with every `from` replaced by `to`.
pub open spec fn replace_char(s: Seq<char>, from: char, to: char) -> Seq<char> {
    s.map_values(|c: char| if c == from { to } else { c })
}

/// Replaces every `from` by `to`.
pub fn replaced(s: &Vec<char>, from: char, to: char) -> (r: Vec<char>)
    ensures
        r@ == replace_char(s@, from, to),
{
    let mut r: Vec<char> = Vec::new();
    let mut i: usize = 0;
    while i < s.len()
        invariant
            i <= s.len(),
            r@ == replace_char(s@.take(i as int), from, to),
        decreases s.len() - i,
    {
        let c = s[i];
        r.push(if c == from { to } else { c });
        i = i + 1;
        assert(r@ =~= replace_char(s@.take(i as int), from, to));
    }
    assert(s@.take(i as int) =~= s@);
    r
}

/// The container-safe name: the shortcut, `-`, and the version with dots turned to dashes.
pub open spec fn spec_container_name(f: FeaturePackView) -> Seq<char> {
    f.shortcut + seq!['-'] + replace_char(version_text(f.version), '.', '-')
}

/// The Maven Central URL of the documentation archive.
pub open spec fn spec_download_url(f: FeaturePackView) -> Seq<char> {
    "https://repo1.maven.org/maven2/"@ + replace_char(f.group_id, '.', '/') + seq!['/'] + f.artifact_id
        + seq!['/'] + f.release_version + seq!['/'] + f.artifact_id + seq!['-'] + f.release_version
        + "-doc.zip"@
}

/// The short name: the shortcut, a space and the version.
pub open spec fn spec_fp_short_name(f: FeaturePackView) -> Seq<char> {
    f.shortcut + seq![' '] + version_text(f.version)
}

/// The full name: the name, `" Feature Pack "` and the version.
pub open spec fn spec_fp_full_name(f: FeaturePackView) -> Seq<char> {
    f.name + " Feature Pack "@ + version_text(f.version)
}

impl FeaturePack {
    /// A copy of this feature pack.
    pub fn cloned(&self) -> (r: FeaturePack)
        ensures
            r@ == self@,
    {
        FeaturePack {
            shortcut: self.shortcut.clone(),
            name: self.name.clone(),
            group_id: self.group_id.clone(),
            artifact_id: self.artifact_id.clone(),
            shortcut_index: self.shortcut_index,
            version_index: self.version_index,
            version: self.version.cloned(),
            release_version: self.release_version.clone(),
        }
    }

    /// Returns a unique port offset for this feature pack, starting at `10_000`.
    pub fn port_offset(&self) -> (r: u16)
        requires
            spec_port_offset(self@) <= u16::MAX,
        ensures
            r == spec_port_offset(self@),
    {
        10000 + self.shortcut_index * 100 + self.version_index
    }

    /// Returns a container-safe name (e.g. `"ai-0-9-0"`).
    pub fn container_name(&self) -> (r: String)
        ensures
            r@ == spec_container_name(self@),
    {
        let mut out = chars_of(self.shortcut.as_str());
        out.push('-');
        push_all(&mut out, &replaced(&self.version.text(), '.', '-'));
        string_of(&out)
    }

    /// Returns the Maven Central URL for the feature pack's documentation ZIP archive.
    pub fn download_url(&self) -> (r: String)
        ensures
            r@ == spec_download_url(self@),
    {
        let artifact = chars_of(self.artifact_id.as_str());
        let release = chars_of(self.release_version.as_str());
        let mut out = chars_of("https://repo1.maven.org/maven2/");
        push_all(&mut out, &replaced(&chars_of(self.group_id.as_str()), '.', '/'));
        out.push('/');
        push_all(&mut out, &artifact);
        out.push('/');
        push_all(&mut out, &release);
        out.push('/');
        push_all(&mut out, &artifact);
        out.push('-');
        push_all(&mut out, &release);
        push_all(&mut out, &chars_of("-doc.zip"));
        assert(out@ =~= spec_download_url(self@));
        string_of(&out)
    }

    /// Returns a short human-readable name (e.g. `"ai 0.9.0"`).
    pub fn short_name(&self) -> (r: String)
        ensures
            r@ == spec_fp_short_name(self@),
    {
        let mut out = chars_of(self.shortcut.as_str());
        out.push(' ');
        push_all(&mut out, &self.version.text());
        string_of(&out)
    }

    /// Returns a full branded name (e.g. `"AI Feature Pack 0.9.0"`).
    pub fn full_name(&self) -> (r: String)
        ensures
            r@ == spec_fp_full_name(self@),
    {
        let mut out = chars_of(self.name.as_str());
        push_all(&mut out, &chars_of(" Feature Pack "));
        push_all(&mut out, &self.version.text());
        assert(out@ =~= spec_fp_full_name(self@));
        string_of(&out)
    }
}


/// The key a feature pack is filed under: its shortcut and version.
pub open spec fn fp_key(f: FeaturePackView) -> (Seq<char>, VersionView) {
    (f.shortcut, f.version)
}

/// The order of keys: by shortcut as strings, then by version.
pub open spec fn key_order(p: (Seq<char>, VersionView), q: (Seq<char>, VersionView)) -> int {
    pair_order(
        p,
        q,
        |x: Seq<char>, y: Seq<char>| str_order(x, y),
        |x: VersionView, y: VersionView| version_order(x, y),
    )
}

/// The order of keys is a total order.
pub proof fn lemma_key_order()
    ensures
        is_order(|p: (Seq<char>, VersionView), q: (Seq<char>, VersionView)| key_order(p, q)),
{
    lemma_str_order();
    lemma_version_order();
    lemma_pair_order(
        |x: Seq<char>, y: Seq<char>| str_order(x, y),
        |x: VersionView, y: VersionView| version_order(x, y),
    );
    let a = |p: (Seq<char>, VersionView), q: (Seq<char>, VersionView)| key_order(p, q);
    let b = |p: (Seq<char>, VersionView), q: (Seq<char>, VersionView)|
        pair_order(
            p,
            q,
            |x: Seq<char>, y: Seq<char>| str_order(x, y),
            |x: VersionView, y: VersionView| version_order(x, y),
        );
    assert(a =~= b);
}

/// The laws of the key order, for three given keys.
pub proof fn lemma_key_facts(
    a: (Seq<char>, VersionView),
    b: (Seq<char>, VersionView),
    c: (Seq<char>, VersionView),
)
    ensures
        key_order(a, b) == -key_order(b, a),
        key_order(a, b) == 0 <==> a == b,
        -1 <= key_order(a, b) <= 1,
        key_order(a, b) < 0 && key_order(b, c) < 0 ==> key_order(a, c) < 0,
{
    lemma_key_order();
    let ko = |p: (Seq<char>, VersionView), q: (Seq<char>, VersionView)| key_order(p, q);
    assert(ko(a, b) == key_order(a, b));
    assert(ko(b, a) == key_order(b, a));
    assert(ko(b, c) == key_order(b, c));
    assert(ko(a, c) == key_order(a, c));
}

/// Keys strictly increase along the sequence.
pub open spec fn keys_increasing(s: Seq<FeaturePackView>) -> bool {
    forall|i: int, j: int| 0 <= i < j < s.len() ==> key_order(fp_key(s[i]), fp_key(s[j])) < 0
}

/// The version of each pack reads back from its own text.
pub open spec fn versions_reparse(s: Seq<FeaturePackView>) -> bool {
    forall|i: int|
        0 <= i < s.len() ==> semver_parsed(version_text(#[trigger] s[i].version)) == Some(s[i].version)
}

/// No two packs share both their shortcut index and their version index.
pub open spec fn indices_distinct(s: Seq<FeaturePackView>) -> bool {
    forall|i: int, j: int|
        0 <= i < s.len() && 0 <= j < s.len() && i != j ==> (#[trigger] s[i].shortcut_index
            != #[trigger] s[j].shortcut_index || s[i].version_index != s[j].version_index)
}

/// Some pack in `s` has key `k`.
pub open spec fn has_key(s: Seq<FeaturePackView>, k: (Seq<char>, VersionView)) -> bool {
    exists|i: int| 0 <= i < s.len() && fp_key(s[i]) == k
}

/// The pack with key `k` in `s`, if any.
pub open spec fn pack_with_key(s: Seq<FeaturePackView>, k: (Seq<char>, VersionView)) -> Option<
    FeaturePackView,
> {
    if has_key(s, k) {
        Some(s[choose|i: int| 0 <= i < s.len() && fp_key(s[i]) == k])
    } else {
        None
    }
}

/// The packs of `s` keyed by shortcut and version.
pub open spec fn pack_map(s: Seq<FeaturePackView>) -> Map<(Seq<char>, VersionView), FeaturePackView> {
    Map::new(|k: (Seq<char>, VersionView)| has_key(s, k), |k: (Seq<char>, VersionView)| pack_with_key(s, k)->0)
}

/// The views of a list of feature packs.
pub open spec fn packs_view(v: Seq<FeaturePack>) -> Seq<FeaturePackView> {
    v.map_values(|f: FeaturePack| f@)
}

/// The views of a list of references to feature packs.
pub open spec fn pack_refs_view(v: Seq<&FeaturePack>) -> Seq<FeaturePackView> {
    v.map_values(|f: &FeaturePack| f@)
}

/// In a sequence with increasing keys, the pack at position `i` is the one with its key.
pub proof fn lemma_pack_at(s: Seq<FeaturePackView>, i: int)
    requires
        keys_increasing(s),
        0 <= i < s.len(),
    ensures
        has_key(s, fp_key(s[i])),
        pack_with_key(s, fp_key(s[i])) == Some(s[i]),
        pack_map(s).dom().contains(fp_key(s[i])),
        pack_map(s)[fp_key(s[i])] == s[i],
{
    let k = fp_key(s[i]);
    assert(has_key(s, k));
    let j = choose|j: int| 0 <= j < s.len() && fp_key(s[j]) == k;
    lemma_key_facts(fp_key(s[i]), fp_key(s[j]), k);
    if j < i {
        assert(key_order(fp_key(s[j]), fp_key(s[i])) < 0);
    }
    if i < j {
        assert(key_order(fp_key(s[i]), fp_key(s[j])) < 0);
    }
}

/// Compares the key of `f` with the key `(shortcut, version)`.
fn compare_key(f: &FeaturePack, shortcut: &Vec<char>, version: &Version) -> (r: i8)
    ensures
        r == key_order(fp_key(f@), (shortcut@, version@)),
{
    let c = crate::version::str_compare(&chars_of(f.shortcut.as_str()), shortcut);
    if c != 0 {
        c
    } else {
        f.version.compare(version)
    }
}

/// Inserts `fp` into a sequence ordered by key, replacing a pack with the same key.
fn insert_pack(packs: &mut Vec<FeaturePack>, fp: FeaturePack)
    requires
        keys_increasing(packs_view(old(packs)@)),
        versions_reparse(packs_view(old(packs)@)),
        semver_parsed(version_text(fp.version@)) == Some(fp.version@),
    ensures
        keys_increasing(packs_view(final(packs)@)),
        versions_reparse(packs_view(final(packs)@)),
        forall|j: int|
            0 <= j < final(packs)@.len() ==> packs_view(final(packs)@)[j] == fp@ || packs_view(
                old(packs)@,
            ).contains(#[trigger] packs_view(final(packs)@)[j]),
        pack_map(packs_view(final(packs)@)) == pack_map(packs_view(old(packs)@)).insert(fp_key(fp@), fp@),
{
    proof {
        lemma_key_order();
    }
    let ghost old_v = packs_view(packs@);
    let ghost key = fp_key(fp@);
    let shortcut = chars_of(fp.shortcut.as_str());
    let mut p: usize = 0;
    let mut c: i8 = 1;
    while p < packs.len()
        invariant
            p <= packs.len(),
            packs_view(packs@) == old_v,
            shortcut@ == fp.shortcut@,
            key == fp_key(fp@),
            forall|k: int| 0 <= k < p ==> key_order(fp_key(#[trigger] old_v[k]), key) < 0,
        ensures
            p <= packs.len(),
            packs_view(packs@) == old_v,
            forall|k: int| 0 <= k < p ==> key_order(fp_key(#[trigger] old_v[k]), key) < 0,
            p < packs.len() ==> key_order(fp_key(old_v[p as int]), key) >= 0,
        decreases packs.len() - p,
    {
        c = compare_key(&packs[p], &shortcut, &fp.version);
        if c >= 0 {
            break;
        }
        p = p + 1;
    }
    let ghost new_fp = fp@;
    let at_end = p == packs.len();
    if !at_end && compare_key(&packs[p], &shortcut, &fp.version) == 0 {
        proof {
            lemma_key_facts(fp_key(old_v[p as int]), key, key);
        }
        assert(fp_key(old_v[p as int]) == key);
        packs.set(p, fp);
        let ghost nv = packs_view(packs@);
        assert(nv =~= old_v.update(p as int, new_fp));
        assert forall|i: int| 0 <= i < nv.len() implies fp_key(nv[i]) == fp_key(old_v[i]) by {}
        assert(keys_increasing(nv));
        assert forall|i: int| 0 <= i < nv.len() implies semver_parsed(version_text(#[trigger] nv[i].version)) == Some(nv[i].version) by {
            if i != p {
                assert(nv[i] == old_v[i]);
            }
        }
        assert forall|j: int| 0 <= j < nv.len() implies nv[j] == new_fp || old_v.contains(#[trigger] nv[j]) by {
            if j != p {
                assert(nv[j] == old_v[j]);
            }
        }
        proof {
            let m = pack_map(old_v).insert(key, new_fp);
            assert forall|k: (Seq<char>, VersionView)| #[trigger] pack_map(nv).dom().contains(k) <==> m.dom().contains(k) by {
                if has_key(nv, k) {
                    let j = choose|j: int| 0 <= j < nv.len() && fp_key(nv[j]) == k;
                    assert(fp_key(old_v[j]) == k);
                }
                if has_key(old_v, k) {
                    let j = choose|j: int| 0 <= j < old_v.len() && fp_key(old_v[j]) == k;
                    assert(fp_key(nv[j]) == k);
                }
                if k == key {
                    assert(fp_key(nv[p as int]) == k);
                }
            }
            assert forall|k: (Seq<char>, VersionView)| #[trigger] pack_map(nv).dom().contains(k) implies pack_map(nv)[k] == m[k] by {
                let j = choose|j: int| 0 <= j < nv.len() && fp_key(nv[j]) == k;
                lemma_pack_at(nv, j);
                if j != p {
                    lemma_pack_at(old_v, j);
                    lemma_key_facts(fp_key(old_v[j]), fp_key(old_v[p as int]), key);
                    lemma_key_facts(fp_key(old_v[p as int]), fp_key(old_v[j]), key);
                    if j < p {
                        assert(key_order(fp_key(old_v[j]), fp_key(old_v[p as int])) < 0);
                    } else {
                        assert(key_order(fp_key(old_v[p as int]), fp_key(old_v[j])) < 0);
                    }
                    assert(k != key);
                }
            }
            assert(pack_map(nv) =~= m);
        }
    } else {
        proof {
            if !at_end {
                lemma_key_facts(fp_key(old_v[p as int]), key, key);
                assert(key_order(fp_key(old_v[p as int]), key) > 0);
                assert(key_order(key, fp_key(old_v[p as int])) < 0);
            }
        }
        packs.insert(p, fp);
        let ghost nv = packs_view(packs@);
        assert(nv =~= old_v.insert(p as int, new_fp));
        assert forall|i: int| 0 <= i < nv.len() implies semver_parsed(version_text(#[trigger] nv[i].version)) == Some(nv[i].version) by {
            if i < p {
                assert(nv[i] == old_v[i]);
            } else if i > p {
                assert(nv[i] == old_v[i - 1]);
            }
        }
        assert forall|j: int| 0 <= j < nv.len() implies nv[j] == new_fp || old_v.contains(#[trigger] nv[j]) by {
            if j < p {
                assert(nv[j] == old_v[j]);
            } else if j > p {
                assert(nv[j] == old_v[j - 1]);
            }
        }
        assert forall|i: int, j: int| 0 <= i < j < nv.len() implies key_order(fp_key(nv[i]), fp_key(nv[j])) < 0 by {
            if i < p && j > p {
                assert(nv[j] == old_v[j - 1]);
                assert(key_order(fp_key(old_v[i]), key) < 0);
                if j - 1 == p {
                    lemma_key_facts(fp_key(old_v[i]), key, fp_key(old_v[j - 1]));
                } else {
                    lemma_key_facts(key, fp_key(old_v[p as int]), fp_key(old_v[j - 1]));
                    lemma_key_facts(fp_key(old_v[i]), key, fp_key(old_v[j - 1]));
                }
                if j - 1 > p {
                    assert(key_order(fp_key(old_v[p as int]), fp_key(old_v[j - 1])) < 0);
                    lemma_key_facts(key, fp_key(old_v[p as int]), fp_key(old_v[j - 1]));
                    assert(key_order(key, fp_key(old_v[j - 1])) < 0);
                }
            } else if i > p {
                assert(nv[i] == old_v[i - 1]);
                assert(nv[j] == old_v[j - 1]);
            } else if i == p && j > p {
                assert(nv[j] == old_v[j - 1]);
                if j - 1 > p {
                    assert(key_order(fp_key(old_v[p as int]), fp_key(old_v[j - 1])) < 0);
                    lemma_key_facts(key, fp_key(old_v[p as int]), fp_key(old_v[j - 1]));
                }
            } else if i < p && j == p {
                assert(key_order(fp_key(old_v[i]), key) < 0);
            }
        }
        proof {
            let m = pack_map(old_v).insert(key, new_fp);
            assert forall|k: (Seq<char>, VersionView)| #[trigger] pack_map(nv).dom().contains(k) <==> m.dom().contains(k) by {
                if has_key(nv, k) {
                    let j = choose|j: int| 0 <= j < nv.len() && fp_key(nv[j]) == k;
                    if j < p {
                        assert(old_v[j] == nv[j]);
                    } else if j > p {
                        assert(old_v[j - 1] == nv[j]);
                    }
                }
                if has_key(old_v, k) {
                    let j = choose|j: int| 0 <= j < old_v.len() && fp_key(old_v[j]) == k;
                    if j < p {
                        assert(fp_key(nv[j]) == k);
                    } else {
                        assert(fp_key(nv[j + 1]) == k);
                    }
                }
                if k == key {
                    assert(fp_key(nv[p as int]) == k);
                }
            }
            assert forall|k: (Seq<char>, VersionView)| #[trigger] pack_map(nv).dom().contains(k) implies pack_map(nv)[k] == m[k] by {
                let j = choose|j: int| 0 <= j < nv.len() && fp_key(nv[j]) == k;
                lemma_pack_at(nv, j);
                assert(fp_key(nv[p as int]) == key);
                if j < p {
                    lemma_pack_at(old_v, j);
                    assert(old_v[j] == nv[j]);
                    assert(key_order(fp_key(nv[j]), fp_key(nv[p as int])) < 0);
                    lemma_key_facts(k, key, key);
                } else if j > p {
                    lemma_pack_at(old_v, j - 1);
                    assert(old_v[j - 1] == nv[j]);
                    assert(key_order(fp_key(nv[p as int]), fp_key(nv[j])) < 0);
                    lemma_key_facts(key, k, key);
                }
            }
            assert(pack_map(nv) =~= m);
        }
    }
}


/// One version of a feature pack entry in the configuration.
#[derive(Clone, Debug, PartialEq, Eq)]
pub struct VersionEntry {
    /// The semantic version text (e.g. `"0.9.0"`).
    pub version: String,
    /// The release version (e.g. `"0.9.0.Final"`).
    pub release_version: String,
}

/// One `[[feature_packs]]` entry of the feature packs configuration.
#[derive(Clone, Debug, PartialEq, Eq)]
pub struct FeaturePackEntry {
    pub shortcut: String,
    pub name: String,
    pub group_id: String,
    pub artifact_id: String,
    pub versions: Vec<VersionEntry>,
}

/// The mathematical value of a [`VersionEntry`].
pub struct VersionEntryView {
    pub version: Seq<char>,
    pub release_version: Seq<char>,
}

/// The mathematical value of a [`FeaturePackEntry`].
pub struct FeaturePackEntryView {
    pub shortcut: Seq<char>,
    pub name: Seq<char>,
    pub group_id: Seq<char>,
    pub artifact_id: Seq<char>,
    pub versions: Seq<VersionEntryView>,
}

impl View for VersionEntry {
    type V = VersionEntryView;

    open spec fn view(&self) -> VersionEntryView {
        VersionEntryView { version: self.version@, release_version: self.release_version@ }
    }
}

impl View for FeaturePackEntry {
    type V = FeaturePackEntryView;

    open spec fn view(&self) -> FeaturePackEntryView {
        FeaturePackEntryView {
            shortcut: self.shortcut@,
            name: self.name@,
            group_id: self.group_id@,
            artifact_id: self.artifact_id@,
            versions: self.versions@.map_values(|v: VersionEntry| v@),
        }
    }
}

/// The views of a list of entries.
pub open spec fn fp_entries_view(v: Seq<FeaturePackEntry>) -> Seq<FeaturePackEntryView> {
    v.map_values(|e: FeaturePackEntry| e@)
}

/// Every version of every entry, in configuration order, with the entry it belongs to.
pub open spec fn flat_versions(es: Seq<FeaturePackEntryView>) -> Seq<(FeaturePackEntryView, VersionEntryView)>
    decreases es.len(),
{
    if es.len() == 0 {
        Seq::empty()
    } else {
        flat_versions(es.drop_last()) + es.last().versions.map_values(
            |v: VersionEntryView| (es.last(), v),
        )
    }
}

/// The distinct shortcuts of the entries, in order of first appearance.
pub open spec fn shortcuts_by_appearance(es: Seq<FeaturePackEntryView>) -> Seq<Seq<char>>
    decreases es.len(),
{
    if es.len() == 0 {
        Seq::empty()
    } else {
        let p = shortcuts_by_appearance(es.drop_last());
        if p.contains(es.last().shortcut) {
            p
        } else {
            p.push(es.last().shortcut)
        }
    }
}

/// The position of `x` in `s`.
pub open spec fn position_of(s: Seq<Seq<char>>, x: Seq<char>) -> int {
    choose|i: int| 0 <= i < s.len() && s[i] == x
}

/// The shortcut index of a shortcut: how many distinct shortcuts appeared before it.
pub open spec fn shortcut_rank(es: Seq<FeaturePackEntryView>, s: Seq<char>) -> int {
    position_of(shortcuts_by_appearance(es), s)
}

/// The version index of the `k`-th version: how many versions of the same shortcut came
/// before it.
pub open spec fn version_rank(flat: Seq<(FeaturePackEntryView, VersionEntryView)>, k: int) -> nat {
    flat.take(k).filter(
        |p: (FeaturePackEntryView, VersionEntryView)| p.0.shortcut == flat[k].0.shortcut,
    ).len()
}

/// The pack the `k`-th version describes, with the version `v` read from its text.
pub open spec fn flat_pack(es: Seq<FeaturePackEntryView>, k: int, v: VersionView) -> FeaturePackView {
    let flat = flat_versions(es);
    let (e, ve) = flat[k];
    FeaturePackView {
        shortcut: e.shortcut,
        name: e.name,
        group_id: e.group_id,
        artifact_id: e.artifact_id,
        shortcut_index: shortcut_rank(es, e.shortcut) as u16,
        version_index: version_rank(flat, k) as u16,
        version: v,
        release_version: ve.release_version,
    }
}

/// The packs the first `n` versions describe, keyed by shortcut and version (a later one
/// replacing an earlier one with the same key), or the first version text that is no valid
/// version.
pub open spec fn packs_built(es: Seq<FeaturePackEntryView>, n: nat) -> Result<
    Map<(Seq<char>, VersionView), FeaturePackView>,
    Seq<char>,
>
    decreases n,
{
    if n == 0 {
        Ok(Map::empty())
    } else {
        match packs_built(es, (n - 1) as nat) {
            Err(t) => Err(t),
            Ok(m) => {
                let (e, ve) = flat_versions(es)[n - 1];
                match semver_parsed(ve.version) {
                    None => Err(ve.version),
                    Some(v) => Ok(m.insert((e.shortcut, v), flat_pack(es, n - 1, v))),
                }
            },
        }
    }
}

/// The versions of a prefix of the entries are a prefix of all versions.
proof fn lemma_flat_prefix(es: Seq<FeaturePackEntryView>, i: int)
    requires
        0 <= i <= es.len(),
    ensures
        flat_versions(es.take(i)).len() <= flat_versions(es).len(),
        flat_versions(es).take(flat_versions(es.take(i)).len() as int) == flat_versions(es.take(i)),
    decreases es.len(),
{
    if i == es.len() {
        assert(es.take(i) =~= es);
        assert(flat_versions(es).take(flat_versions(es).len() as int) =~= flat_versions(es));
    } else {
        lemma_flat_prefix(es.drop_last(), i);
        assert(es.drop_last().take(i) =~= es.take(i));
        let a = flat_versions(es.drop_last());
        let n = flat_versions(es.take(i)).len() as int;
        assert(flat_versions(es).take(n) =~= a.take(n));
    }
}

/// The versions of one more entry are those before and the entry's own.
proof fn lemma_flat_step(es: Seq<FeaturePackEntryView>, i: int)
    requires
        0 <= i < es.len(),
    ensures
        flat_versions(es.take(i + 1)) == flat_versions(es.take(i)) + es[i].versions.map_values(
            |v: VersionEntryView| (es[i], v),
        ),
{
    assert(es.take(i + 1).drop_last() =~= es.take(i));
    assert(es.take(i + 1).last() == es[i]);
}

/// One more entry adds its shortcut to the shortcuts by appearance, where it is new.
proof fn lemma_order_step(es: Seq<FeaturePackEntryView>, i: int)
    requires
        0 <= i < es.len(),
    ensures
        shortcuts_by_appearance(es.take(i + 1)) == (if shortcuts_by_appearance(es.take(i)).contains(
            es[i].shortcut,
        ) {
            shortcuts_by_appearance(es.take(i))
        } else {
            shortcuts_by_appearance(es.take(i)).push(es[i].shortcut)
        }),
{
    assert(es.take(i + 1).drop_last() =~= es.take(i));
    assert(es.take(i + 1).last() == es[i]);
}

/// The shortcuts by appearance are distinct.
proof fn lemma_order_distinct(es: Seq<FeaturePackEntryView>)
    ensures
        shortcuts_by_appearance(es).no_duplicates(),
    decreases es.len(),
{
    if es.len() > 0 {
        lemma_order_distinct(es.drop_last());
    }
}

/// The shortcuts of a prefix of the entries are a prefix of all shortcuts by appearance.
proof fn lemma_order_prefix(es: Seq<FeaturePackEntryView>, i: int)
    requires
        0 <= i <= es.len(),
    ensures
        shortcuts_by_appearance(es.take(i)).len() <= shortcuts_by_appearance(es).len(),
        shortcuts_by_appearance(es).take(shortcuts_by_appearance(es.take(i)).len() as int)
            == shortcuts_by_appearance(es.take(i)),
    decreases es.len(),
{
    if i == es.len() {
        assert(es.take(i) =~= es);
        assert(shortcuts_by_appearance(es).take(shortcuts_by_appearance(es).len() as int) =~= shortcuts_by_appearance(es));
    } else {
        lemma_order_prefix(es.drop_last(), i);
        assert(es.drop_last().take(i) =~= es.take(i));
        let a = shortcuts_by_appearance(es.drop_last());
        let n = shortcuts_by_appearance(es.take(i)).len() as int;
        assert(shortcuts_by_appearance(es).take(n) =~= a.take(n));
    }
}

/// The position of an element in a sequence without duplicates.
proof fn lemma_position(s: Seq<Seq<char>>, x: Seq<char>, i: int)
    requires
        s.no_duplicates(),
        0 <= i < s.len(),
        s[i] == x,
    ensures
        position_of(s, x) == i,
{
    let j = position_of(s, x);
    assert(0 <= j < s.len() && s[j] == x);
}

/// Every version's shortcut is among the shortcuts by appearance.
proof fn lemma_flat_shortcuts(es: Seq<FeaturePackEntryView>)
    ensures
        forall|k: int|
            0 <= k < flat_versions(es).len() ==> shortcuts_by_appearance(es).contains(
                #[trigger] flat_versions(es)[k].0.shortcut,
            ),
    decreases es.len(),
{
    if es.len() > 0 {
        lemma_flat_shortcuts(es.drop_last());
        let a = flat_versions(es.drop_last());
        let p = shortcuts_by_appearance(es.drop_last());
        assert forall|k: int| 0 <= k < flat_versions(es).len() implies shortcuts_by_appearance(
            es,
        ).contains(#[trigger] flat_versions(es)[k].0.shortcut) by {
            if k < a.len() {
                assert(flat_versions(es)[k] == a[k]);
                assert(p.contains(a[k].0.shortcut));
                let w = choose|w: int| 0 <= w < p.len() && p[w] == a[k].0.shortcut;
                assert(shortcuts_by_appearance(es)[w] == p[w]);
            } else {
                assert(flat_versions(es)[k].0 == es.last());
                if !p.contains(es.last().shortcut) {
                    assert(shortcuts_by_appearance(es)[p.len() as int] == es.last().shortcut);
                }
            }
        }
    }
}

/// Once a version fails to read, building stays failed with that version.
proof fn lemma_err_sticky(es: Seq<FeaturePackEntryView>, n: nat, m: nat)
    requires
        n <= m,
        packs_built(es, n) is Err,
    ensures
        packs_built(es, m) == packs_built(es, n),
    decreases m - n,
{
    if n < m {
        lemma_err_sticky(es, n, (m - 1) as nat);
    }
}

/// Registry of [`FeaturePack`] entries.
///
/// Feature packs are kept in ascending order of `(shortcut, version)`, so iteration is
/// alphabetical by shortcut and then by version within each shortcut group.
pub struct FeaturePackRegistry {
    feature_packs: Vec<FeaturePack>,
}

impl View for FeaturePackRegistry {
    type V = Seq<FeaturePackView>;

    closed spec fn view(&self) -> Seq<FeaturePackView> {
        packs_view(self.feature_packs@)
    }
}

impl FeaturePackRegistry {
    /// The packs are ordered by strictly increasing key.
    #[verifier::type_invariant]
    pub closed spec fn ordered(&self) -> bool {
        &&& keys_increasing(packs_view(self.feature_packs@))
        &&& versions_reparse(packs_view(self.feature_packs@))
    }

    /// What [`Self::ordered`] states, in terms of the registry's view.
    pub proof fn lemma_ordered(&self)
        requires
            self.ordered(),
        ensures
            keys_increasing(self@),
            versions_reparse(self@),
    {
    }

    /// Builds the registry from configuration entries: each version of an entry becomes a
    /// pack, with the shortcut's index in order of first appearance and the version's index
    /// among the versions of its shortcut. Fails with the first version text that is no
    /// valid semantic version.
    pub fn from_entries(entries: Vec<FeaturePackEntry>) -> (r: Result<Self, String>)
        requires
            forall|k: int|
                0 <= k < flat_versions(fp_entries_view(entries@)).len() ==> version_rank(
                    flat_versions(fp_entries_view(entries@)),
                    k,
                ) < u16::MAX,
        ensures
            match r {
                Ok(reg) => {
                    &&& keys_increasing(reg@)
                    &&& shortcuts_by_appearance(fp_entries_view(entries@)).len() <= 65536
                        ==> indices_distinct(reg@)
                    &&& packs_built(
                        fp_entries_view(entries@),
                        flat_versions(fp_entries_view(entries@)).len(),
                    ) == Ok::<_, Seq<char>>(pack_map(reg@))
                },
                Err(t) => packs_built(
                    fp_entries_view(entries@),
                    flat_versions(fp_entries_view(entries@)).len(),
                ) == Err::<Map<(Seq<char>, VersionView), FeaturePackView>, _>(t@),
            },
    {
        let ghost es = fp_entries_view(entries@);
        let ghost flat = flat_versions(es);
        let mut seen: Vec<Vec<char>> = Vec::new();
        let mut counts: Vec<u16> = Vec::new();
        let mut packs: Vec<FeaturePack> = Vec::new();
        let mut i: usize = 0;
        let ghost small = shortcuts_by_appearance(es).len() <= 65536;
        assert(es.take(0) =~= Seq::<FeaturePackEntryView>::empty());
        assert(pack_map(packs_view(packs@)) =~= Map::<(Seq<char>, VersionView), FeaturePackView>::empty());
        proof {
            lemma_order_distinct(es);
        }
        while i < entries.len()
            invariant
                es == fp_entries_view(entries@),
                flat == flat_versions(es),
                i <= entries.len(),
                forall|k: int| 0 <= k < flat.len() ==> version_rank(flat, k) < u16::MAX,
                crate::text::views(seen@) == shortcuts_by_appearance(es.take(i as int)),
                counts@.len() == seen@.len(),
                forall|x: int|
                    0 <= x < seen@.len() ==> #[trigger] counts@[x] == flat.take(
                        flat_versions(es.take(i as int)).len() as int,
                    ).filter(
                        |p: (FeaturePackEntryView, VersionEntryView)| p.0.shortcut == seen@[x]@,
                    ).len(),
                flat_versions(es.take(i as int)).len() <= flat.len(),
                keys_increasing(packs_view(packs@)),
                versions_reparse(packs_view(packs@)),
                small == (shortcuts_by_appearance(es).len() <= 65536),
                small ==> indices_distinct(packs_view(packs@)),
                small ==> forall|k: int|
                    0 <= k < packs@.len() ==> (#[trigger] packs_view(packs@)[k]).shortcut_index
                        < counts@.len() && packs_view(packs@)[k].version_index < counts@[packs_view(
                        packs@,
                    )[k].shortcut_index as int],
                packs_built(es, flat_versions(es.take(i as int)).len()) == Ok::<_, Seq<char>>(
                    pack_map(packs_view(packs@)),
                ),
            decreases entries.len() - i,
        {
            let e = &entries[i];
            let ghost ev = es[i as int];
            assert(e@ == ev);
            let ghost base = flat_versions(es.take(i as int)).len();
            let sc = chars_of(e.shortcut.as_str());
            proof {
                lemma_flat_prefix(es, i + 1);
                lemma_flat_step(es, i as int);
                lemma_order_step(es, i as int);
                lemma_order_prefix(es, i + 1);
                lemma_flat_shortcuts(es.take(i as int));
            }
            let mut x: usize = 0;
            while x < seen.len() && !chars_eq(&seen[x], &sc)
                invariant
                    x <= seen@.len(),
                    forall|y: int| 0 <= y < x ==> #[trigger] seen@[y]@ != sc@,
                decreases seen.len() - x,
            {
                x = x + 1;
            }
            let ghost order_i = shortcuts_by_appearance(es.take(i as int));
            if x == seen.len() {
                proof {
                    assert(!order_i.contains(sc@)) by {
                        if order_i.contains(sc@) {
                            let w = choose|w: int| 0 <= w < order_i.len() && order_i[w] == sc@;
                            assert(crate::text::views(seen@)[w] == seen@[w]@);
                        }
                    }
                    let f = flat.take(base as int);
                    assert(f == flat_versions(es.take(i as int)));
                    assert(f.filter(|p: (FeaturePackEntryView, VersionEntryView)| p.0.shortcut == sc@) =~= Seq::<(FeaturePackEntryView, VersionEntryView)>::empty()) by {
                        let q = f.filter(|p: (FeaturePackEntryView, VersionEntryView)| p.0.shortcut == sc@);
                        if q.len() > 0 {
                            f.lemma_filter_contains_rev(|p: (FeaturePackEntryView, VersionEntryView)| p.0.shortcut == sc@, q[0]);
                            let k = choose|k: int| 0 <= k < f.len() && f[k] == q[0];
                            assert(order_i.contains(f[k].0.shortcut));
                        }
                    }
                }
                let ghost before = seen@;
                seen.push(chars_of(e.shortcut.as_str()));
                counts.push(0);
                assert(crate::text::views(seen@) =~= crate::text::views(before).push(sc@));
            } else {
                proof {
                    assert(crate::text::views(seen@)[x as int] == sc@);
                    assert(order_i.contains(sc@));
                }
            }
            let ghost order_n = shortcuts_by_appearance(es.take(i + 1));
            assert(crate::text::views(seen@) == order_n);
            assert(seen@[x as int]@ == sc@);
            let shortcut_index: u16 = x as u16;
            proof {
                lemma_order_distinct(es);
                let full = shortcuts_by_appearance(es);
                assert(full[x as int] == order_n[x as int]);
                lemma_position(full, sc@, x as int);
            }
            let mut j: usize = 0;
            while j < e.versions.len()
                invariant
                    es == fp_entries_view(entries@),
                    flat == flat_versions(es),
                    e@ == es[i as int],
                    i < entries.len(),
                    sc@ == e.shortcut@,
                    x < seen@.len(),
                    seen@[x as int]@ == sc@,
                    shortcut_index == x as u16,
                    shortcut_rank(es, sc@) == x,
                    forall|k: int| 0 <= k < flat.len() ==> version_rank(flat, k) < u16::MAX,
                    crate::text::views(seen@) == shortcuts_by_appearance(es.take(i + 1)),
                    counts@.len() == seen@.len(),
                    j <= e.versions@.len(),
                    base + e.versions@.len() == flat_versions(es.take(i + 1)).len(),
                    flat_versions(es.take(i + 1)).len() <= flat.len(),
                    flat.take(flat_versions(es.take(i + 1)).len() as int) == flat_versions(es.take(i + 1)),
                    flat_versions(es.take(i + 1)) == flat_versions(es.take(i as int)) + es[i as int].versions.map_values(|v: VersionEntryView| (es[i as int], v)),
                    flat_versions(es.take(i as int)).len() == base,
                    forall|y: int|
                        0 <= y < seen@.len() ==> #[trigger] counts@[y] == flat.take(base + j).filter(
                            |p: (FeaturePackEntryView, VersionEntryView)| p.0.shortcut == seen@[y]@,
                        ).len(),
                    keys_increasing(packs_view(packs@)),
                    versions_reparse(packs_view(packs@)),
                    small == (shortcuts_by_appearance(es).len() <= 65536),
                    small ==> x < 65536,
                    small ==> indices_distinct(packs_view(packs@)),
                    small ==> forall|k: int|
                        0 <= k < packs@.len() ==> (#[trigger] packs_view(packs@)[k]).shortcut_index
                            < counts@.len() && packs_view(packs@)[k].version_index < counts@[packs_view(
                            packs@,
                        )[k].shortcut_index as int],
                    packs_built(es, (base + j) as nat) == Ok::<_, Seq<char>>(pack_map(packs_view(packs@))),
                decreases e.versions.len() - j,
            {
                let ve = &e.versions[j];
                let ghost n = base + j;
                proof {
                    assert(flat[n] == flat_versions(es.take(i + 1))[n]);
                    assert(flat[n] == (es[i as int], ve@));
                    assert(flat.take(n + 1) =~= flat.take(n).push(flat[n]));
                }
                let vi = counts[x];
                assert(vi == version_rank(flat, n));
                assert(vi < u16::MAX);
                let ghost cbefore = counts@;
                counts.set(x, vi + 1);
                proof {
                    assert forall|y: int|
                        0 <= y < seen@.len() implies #[trigger] counts@[y] == flat.take(n + 1).filter(
                            |p: (FeaturePackEntryView, VersionEntryView)| p.0.shortcut == seen@[y]@,
                        ).len() by {
                        let pr = |p: (FeaturePackEntryView, VersionEntryView)| p.0.shortcut == seen@[y]@;
                        flat.take(n).lemma_filter_push(flat[n], pr);
                        if y != x {
                            assert(seen@[y]@ != sc@) by {
                                assert(crate::text::views(seen@)[y] == seen@[y]@);
                                assert(crate::text::views(seen@)[x as int] == seen@[x as int]@);
                                lemma_order_distinct(es.take(i + 1));
                            }
                        }
                    }
                }
                let text = chars_of(ve.version.as_str());
                match Version::parse(&text) {
                    None => {
                        proof {
                            assert(packs_built(es, (n + 1) as nat) == Err::<Map<(Seq<char>, VersionView), FeaturePackView>, Seq<char>>(ve.version@));
                            lemma_err_sticky(es, (n + 1) as nat, flat.len());
                        }
                        return Err(ve.version.clone());
                    },
                    Some(v) => {
                        let fp = FeaturePack {
                            shortcut: e.shortcut.clone(),
                            name: e.name.clone(),
                            group_id: e.group_id.clone(),
                            artifact_id: e.artifact_id.clone(),
                            shortcut_index,
                            version_index: vi,
                            version: v,
                            release_version: ve.release_version.clone(),
                        };
                        assert(fp@ == flat_pack(es, n, fp.version@));
                        let ghost new_fp = fp@;
                        let ghost prev = packs_view(packs@);
                        proof {
                            if small {
                            assert forall|k: int| 0 <= k < prev.len() implies (#[trigger] prev[k]).shortcut_index
                                < counts@.len() && prev[k].version_index < counts@[prev[k].shortcut_index as int] by {
                                if prev[k].shortcut_index == x {
                                    assert(prev[k].version_index < cbefore[x as int]);
                                } else {
                                    assert(counts@[prev[k].shortcut_index as int] == cbefore[prev[k].shortcut_index as int]);
                                }
                            }
                            }
                        }
                        insert_pack(&mut packs, fp);
                        proof {
                            if small {
                            let nv = packs_view(packs@);
                            assert forall|k: int| 0 <= k < nv.len() implies (#[trigger] nv[k]).shortcut_index
                                < counts@.len() && nv[k].version_index < counts@[nv[k].shortcut_index as int] by {
                                if nv[k] != new_fp {
                                    let w = choose|w: int| 0 <= w < prev.len() && prev[w] == nv[k];
                                    assert(prev[w].shortcut_index < counts@.len());
                                }
                            }
                            assert forall|a: int, b: int| 0 <= a < nv.len() && 0 <= b < nv.len() && a != b implies (
                                #[trigger] nv[a].shortcut_index != #[trigger] nv[b].shortcut_index
                                    || nv[a].version_index != nv[b].version_index) by {
                                lemma_key_order();
                                if a < b {
                                    assert(key_order(fp_key(nv[a]), fp_key(nv[b])) < 0);
                                    lemma_key_facts(fp_key(nv[a]), fp_key(nv[b]), fp_key(nv[b]));
                                } else {
                                    assert(key_order(fp_key(nv[b]), fp_key(nv[a])) < 0);
                                    lemma_key_facts(fp_key(nv[b]), fp_key(nv[a]), fp_key(nv[a]));
                                }
                                assert(nv[a] != nv[b]);
                                if nv[a] == new_fp {
                                    let w = choose|w: int| 0 <= w < prev.len() && prev[w] == nv[b];
                                    assert(prev[w].version_index < cbefore[prev[w].shortcut_index as int]);
                                } else if nv[b] == new_fp {
                                    let w = choose|w: int| 0 <= w < prev.len() && prev[w] == nv[a];
                                    assert(prev[w].version_index < cbefore[prev[w].shortcut_index as int]);
                                } else {
                                    let wa = choose|w: int| 0 <= w < prev.len() && prev[w] == nv[a];
                                    let wb = choose|w: int| 0 <= w < prev.len() && prev[w] == nv[b];
                                    assert(wa != wb);
                                    assert(prev[wa].shortcut_index != prev[wb].shortcut_index
                                        || prev[wa].version_index != prev[wb].version_index);
                                }
                            }
                            }
                        }
                    },
                }
                j = j + 1;
            }
            proof {
                assert(flat.take(base + j) == flat.take(flat_versions(es.take(i + 1)).len() as int));
            }
            i = i + 1;
        }
        assert(es.take(i as int) =~= es);
        Ok(FeaturePackRegistry { feature_packs: packs })
    }
}


/// The pack filed under `shortcut` and the version read from `version`, if any.
pub open spec fn fp_lookup(s: Seq<FeaturePackView>, shortcut: Seq<char>, version: Seq<char>) -> Option<
    FeaturePackView,
> {
    match semver_parsed(version) {
        None => None,
        Some(v) => pack_with_key(s, (shortcut, v)),
    }
}

/// `i` holds the greatest version of `shortcut` in `s`.
pub open spec fn is_latest_at(s: Seq<FeaturePackView>, shortcut: Seq<char>, i: int) -> bool {
    &&& 0 <= i < s.len()
    &&& s[i].shortcut == shortcut
    &&& forall|j: int|
        0 <= j < s.len() && #[trigger] s[j].shortcut == shortcut ==> version_order(
            s[j].version,
            s[i].version,
        ) <= 0
}

/// The pack of `shortcut` with the greatest version, if any.
pub open spec fn latest_pack(s: Seq<FeaturePackView>, shortcut: Seq<char>) -> Option<FeaturePackView> {
    if exists|i: int| is_latest_at(s, shortcut, i) {
        Some(s[choose|i: int| is_latest_at(s, shortcut, i)])
    } else {
        None
    }
}

/// `s` with runs of equal neighbours reduced to one element, as `Vec::dedup` leaves it.
pub open spec fn dedup(s: Seq<Seq<char>>) -> Seq<Seq<char>>
    decreases s.len(),
{
    if s.len() == 0 {
        s
    } else {
        let p = dedup(s.drop_last());
        if p.len() > 0 && p.last() == s.last() {
            p
        } else {
            p.push(s.last())
        }
    }
}

/// The shortcuts of the packs, one per run, in registry order.
pub open spec fn spec_known_shortcuts(s: Seq<FeaturePackView>) -> Seq<Seq<char>> {
    dedup(s.map_values(|f: FeaturePackView| f.shortcut))
}

/// The version texts of the packs of `shortcut`, in registry order.
pub open spec fn spec_known_versions(s: Seq<FeaturePackView>, shortcut: Seq<char>) -> Seq<Seq<char>> {
    s.filter(|f: FeaturePackView| f.shortcut == shortcut).map_values(
        |f: FeaturePackView| version_text(f.version),
    )
}

/// `shortcut:version` for a pack.
pub open spec fn spec_fp_identifier(f: FeaturePackView) -> Seq<char> {
    f.shortcut + seq![':'] + version_text(f.version)
}

/// The known shortcuts, then `shortcut:version` for every pack.
pub open spec fn spec_all_identifiers(s: Seq<FeaturePackView>) -> Seq<Seq<char>> {
    spec_known_shortcuts(s) + s.map_values(|f: FeaturePackView| spec_fp_identifier(f))
}

impl FeaturePackRegistry {
    /// The pack with the given key, as characters.
    pub fn find(&self, shortcut: &Vec<char>, version: &Vec<char>) -> (r: Option<&FeaturePack>)
        ensures
            r is Some <==> fp_lookup(self@, shortcut@, version@) is Some,
            r matches Some(f) ==> fp_lookup(self@, shortcut@, version@) == Some(f@),
    {
        proof {
            use_type_invariant(self);
        }
        let v = match Version::parse(version) {
            None => return None,
            Some(v) => v,
        };
        let ghost key = (shortcut@, v@);
        let mut i: usize = 0;
        while i < self.feature_packs.len()
            invariant
                i <= self.feature_packs@.len(),
                keys_increasing(self@),
                key == (shortcut@, v@),
                semver_parsed(version@) == Some(v@),
                forall|k: int| 0 <= k < i ==> fp_key(#[trigger] self@[k]) != key,
            decreases self.feature_packs.len() - i,
        {
            let c = compare_key(&self.feature_packs[i], shortcut, &v);
            if c == 0 {
                proof {
                    lemma_key_facts(fp_key(self@[i as int]), key, key);
                    lemma_pack_at(self@, i as int);
                }
                return Some(&self.feature_packs[i]);
            }
            proof {
                lemma_key_facts(fp_key(self@[i as int]), key, key);
            }
            i = i + 1;
        }
        None
    }

    /// Returns the feature pack matching the given shortcut and version string, or `None`.
    pub fn get(&self, shortcut: &str, version: &str) -> (r: Option<&FeaturePack>)
        ensures
            r is Some <==> fp_lookup(self@, shortcut@, version@) is Some,
            r matches Some(f) ==> fp_lookup(self@, shortcut@, version@) == Some(f@),
    {
        self.find(&chars_of(shortcut), &chars_of(version))
    }

    /// The pack of the shortcut with the greatest version, as characters.
    pub fn find_latest(&self, shortcut: &Vec<char>) -> (r: Option<&FeaturePack>)
        ensures
            r is Some <==> latest_pack(self@, shortcut@) is Some,
            r matches Some(f) ==> latest_pack(self@, shortcut@) == Some(f@),
    {
        proof {
            use_type_invariant(self);
            lemma_str_order();
        }
        let mut found: Option<usize> = None;
        let mut i: usize = 0;
        while i < self.feature_packs.len()
            invariant
                i <= self.feature_packs@.len(),
                keys_increasing(self@),
                match found {
                    None => forall|k: int| 0 <= k < i ==> #[trigger] self@[k].shortcut != shortcut@,
                    Some(m) => m < i && self@[m as int].shortcut == shortcut@ && forall|k: int|
                        m < k < i ==> #[trigger] self@[k].shortcut != shortcut@,
                },
            decreases self.feature_packs.len() - i,
        {
            if chars_eq(&chars_of(self.feature_packs[i].shortcut.as_str()), shortcut) {
                found = Some(i);
            }
            i = i + 1;
        }
        match found {
            None => {
                assert(!(exists|k: int| is_latest_at(self@, shortcut@, k)));
                None
            },
            Some(m) => {
                proof {
                    assert forall|j: int|
                        0 <= j < self@.len() && #[trigger] self@[j].shortcut == shortcut@ implies version_order(
                            self@[j].version,
                            self@[m as int].version,
                        ) <= 0 by {
                        if j < m {
                            let (a, b) = (fp_key(self@[j]), fp_key(self@[m as int]));
                            assert(key_order(a, b) < 0);
                            lemma_key_facts(a, b, b);
                            let so = |x: Seq<char>, y: Seq<char>| str_order(x, y);
                            assert(so(a.0, b.0) == 0);
                        } else if j == m {
                            lemma_version_order();
                            let vo = |x: VersionView, y: VersionView| version_order(x, y);
                            assert(vo(self@[j].version, self@[j].version) == 0);
                        }
                    }
                    assert(is_latest_at(self@, shortcut@, m as int));
                    let c = choose|c: int| is_latest_at(self@, shortcut@, c);
                    if c != m {
                        lemma_version_order();
                        let vo = |x: VersionView, y: VersionView| version_order(x, y);
                        assert(vo(self@[c].version, self@[m as int].version) <= 0);
                        assert(vo(self@[m as int].version, self@[c].version) <= 0);
                        assert(vo(self@[c].version, self@[m as int].version) == -vo(self@[m as int].version, self@[c].version));
                        assert(self@[c].version == self@[m as int].version);
                        assert(fp_key(self@[c]) == fp_key(self@[m as int]));
                        if c < m {
                            lemma_key_facts(fp_key(self@[c]), fp_key(self@[m as int]), fp_key(self@[m as int]));
                        } else {
                            lemma_key_facts(fp_key(self@[m as int]), fp_key(self@[c]), fp_key(self@[c]));
                        }
                    }
                }
                Some(&self.feature_packs[m])
            },
        }
    }

    /// Returns the latest version of the given shortcut, or `None`.
    pub fn latest(&self, shortcut: &str) -> (r: Option<&FeaturePack>)
        ensures
            r is Some <==> latest_pack(self@, shortcut@) is Some,
            r matches Some(f) ==> latest_pack(self@, shortcut@) == Some(f@),
    {
        self.find_latest(&chars_of(shortcut))
    }

    /// The known shortcuts, as characters.
    pub fn shortcut_chars(&self) -> (r: Vec<Vec<char>>)
        ensures
            views(r@) == spec_known_shortcuts(self@),
    {
        let ghost names = self@.map_values(|f: FeaturePackView| f.shortcut);
        let mut r: Vec<Vec<char>> = Vec::new();
        let mut i: usize = 0;
        assert(names.take(0) =~= Seq::<Seq<char>>::empty());
        while i < self.feature_packs.len()
            invariant
                i <= self.feature_packs@.len(),
                names == self@.map_values(|f: FeaturePackView| f.shortcut),
                views(r@) == dedup(names.take(i as int)),
            decreases self.feature_packs.len() - i,
        {
            let name = chars_of(self.feature_packs[i].shortcut.as_str());
            proof {
                assert(names.take(i + 1).drop_last() =~= names.take(i as int));
                assert(names.take(i + 1).last() == name@);
            }
            let n = r.len();
            if n > 0 && chars_eq(&r[n - 1], &name) {
                assert(views(r@).last() == r@[n - 1]@);
            } else {
                let ghost before = views(r@);
                r.push(name);
                proof {
                    if n > 0 {
                        assert(before.last() == r@[n - 1]@);
                    }
                    assert(views(r@) =~= before.push(name@));
                }
            }
            i = i + 1;
        }
        assert(names.take(i as int) =~= names);
        r
    }

    /// Returns the deduplicated list of known shortcut names in alphabetical order.
    pub fn known_shortcuts(&self) -> (r: Vec<&str>)
        ensures
            r@.map_values(|s: &str| s@) == spec_known_shortcuts(self@),
    {
        let ghost names = self@.map_values(|f: FeaturePackView| f.shortcut);
        let mut r: Vec<&str> = Vec::new();
        let mut i: usize = 0;
        assert(names.take(0) =~= Seq::<Seq<char>>::empty());
        while i < self.feature_packs.len()
            invariant
                i <= self.feature_packs@.len(),
                names == self@.map_values(|f: FeaturePackView| f.shortcut),
                r@.map_values(|s: &str| s@) == dedup(names.take(i as int)),
            decreases self.feature_packs.len() - i,
        {
            let name = self.feature_packs[i].shortcut.as_str();
            proof {
                assert(names.take(i + 1).drop_last() =~= names.take(i as int));
                assert(names.take(i + 1).last() == name@);
            }
            let n = r.len();
            if n > 0 && chars_eq(&chars_of(r[n - 1]), &chars_of(name)) {
                assert(r@.map_values(|s: &str| s@).last() == r@[n - 1]@);
            } else {
                let ghost before = r@.map_values(|s: &str| s@);
                r.push(name);
                proof {
                    if n > 0 {
                        assert(before.last() == r@[n - 1]@);
                    }
                    assert(r@.map_values(|s: &str| s@) =~= before.push(name@));
                }
            }
            i = i + 1;
        }
        assert(names.take(i as int) =~= names);
        r
    }

    /// The version texts of a shortcut, as characters.
    pub fn version_chars(&self, shortcut: &Vec<char>) -> (r: Vec<Vec<char>>)
        ensures
            views(r@) == spec_known_versions(self@, shortcut@),
    {
        let ghost pred = |f: FeaturePackView| f.shortcut == shortcut@;
        let ghost txt = |f: FeaturePackView| version_text(f.version);
        let mut r: Vec<Vec<char>> = Vec::new();
        let mut i: usize = 0;
        assert(self@.take(0).filter(pred) =~= Seq::<FeaturePackView>::empty());
        while i < self.feature_packs.len()
            invariant
                i <= self.feature_packs@.len(),
                pred == (|f: FeaturePackView| f.shortcut == shortcut@),
                txt == (|f: FeaturePackView| version_text(f.version)),
                views(r@) == self@.take(i as int).filter(pred).map_values(txt),
            decreases self.feature_packs.len() - i,
        {
            let f = &self.feature_packs[i];
            proof {
                assert(self@.take(i + 1) =~= self@.take(i as int).push(f@));
                self@.take(i as int).lemma_filter_push(f@, pred);
            }
            if chars_eq(&chars_of(f.shortcut.as_str()), shortcut) {
                let t = f.version.text();
                let ghost before = views(r@);
                r.push(t);
                assert(views(r@) =~= before.push(t@));
                assert(self@.take(i + 1).filter(pred).map_values(txt) =~= self@.take(i as int).filter(pred).map_values(txt).push(txt(f@)));
            } else {
                assert(self@.take(i + 1).filter(pred) == self@.take(i as int).filter(pred));
            }
            i = i + 1;
        }
        assert(self@.take(i as int) =~= self@);
        r
    }

    /// Returns all known version strings for the given shortcut.
    pub fn known_versions(&self, shortcut: &str) -> (r: Vec<String>)
        ensures
            strings_view(r@) == spec_known_versions(self@, shortcut@),
    {
        strings_of(&self.version_chars(&chars_of(shortcut)))
    }

    /// Returns all feature packs in sorted order.
    pub fn all(&self) -> (r: Vec<&FeaturePack>)
        ensures
            pack_refs_view(r@) == self@,
    {
        let mut r: Vec<&FeaturePack> = Vec::new();
        let mut i: usize = 0;
        while i < self.feature_packs.len()
            invariant
                i <= self.feature_packs@.len(),
                pack_refs_view(r@) == self@.take(i as int),
            decreases self.feature_packs.len() - i,
        {
            let ghost before = r@;
            let f = &self.feature_packs[i];
            r.push(f);
            proof {
                assert(pack_refs_view(before).len() == before.len());
                assert(pack_refs_view(r@) =~= pack_refs_view(before).push(f@));
                assert(self@.take(i + 1) =~= self@.take(i as int).push(f@));
            }
            i = i + 1;
        }
        assert(self@.take(i as int) =~= self@);
        r
    }

    /// All identifiers, as characters.
    pub fn identifier_chars(&self) -> (r: Vec<Vec<char>>)
        ensures
            views(r@) == spec_all_identifiers(self@),
    {
        let mut r = self.shortcut_chars();
        let ghost first = views(r@);
        let ghost ident = |f: FeaturePackView| spec_fp_identifier(f);
        let mut i: usize = 0;
        while i < self.feature_packs.len()
            invariant
                i <= self.feature_packs@.len(),
                ident == (|f: FeaturePackView| spec_fp_identifier(f)),
                views(r@) == first + self@.take(i as int).map_values(ident),
            decreases self.feature_packs.len() - i,
        {
            let f = &self.feature_packs[i];
            let mut id = chars_of(f.shortcut.as_str());
            id.push(':');
            push_all(&mut id, &f.version.text());
            let ghost before = views(r@);
            r.push(id);
            proof {
                assert(views(r@) =~= before.push(id@));
                assert(id@ == ident(f@));
                assert(self@.take(i + 1).map_values(ident) =~= self@.take(i as int).map_values(ident).push(ident(f@)));
            }
            i = i + 1;
        }
        assert(self@.take(i as int) =~= self@);
        r
    }

    /// Returns all identifiers: bare shortcuts (e.g. `"ai"`) and versioned forms (e.g. `"ai:0.9.0"`).
    pub fn all_identifiers(&self) -> (r: Vec<String>)
        ensures
            strings_view(r@) == spec_all_identifiers(self@),
    {
        strings_of(&self.identifier_chars())
    }

    /// Returns the number of feature packs in the registry.
    pub fn len(&self) -> (r: usize)
        ensures
            r == self@.len(),
    {
        self.feature_packs.len()
    }

    /// Returns `true` if the registry contains no feature packs.
    pub fn is_empty(&self) -> (r: bool)
        ensures
            r == (self@.len() == 0),
    {
        self.feature_packs.len() == 0
    }

    /// Returns the `(shortcut, version)` keys in sorted order.
    pub fn keys(&self) -> (r: Vec<(String, Version)>)
        ensures
            r@.map_values(|k: (String, Version)| (k.0@, k.1@)) == self@.map_values(
                |f: FeaturePackView| fp_key(f),
            ),
    {
        let mut r: Vec<(String, Version)> = Vec::new();
        let mut i: usize = 0;
        while i < self.feature_packs.len()
            invariant
                i <= self.feature_packs@.len(),
                r@.map_values(|k: (String, Version)| (k.0@, k.1@)) == self@.take(i as int).map_values(
                    |f: FeaturePackView| fp_key(f),
                ),
            decreases self.feature_packs.len() - i,
        {
            let f = &self.feature_packs[i];
            let k = (f.shortcut.clone(), f.version.cloned());
            let ghost before = r@;
            r.push(k);
            proof {
                assert(before.map_values(|k: (String, Version)| (k.0@, k.1@)).len() == before.len());
                assert(r@.map_values(|k: (String, Version)| (k.0@, k.1@)) =~= before.map_values(|k: (String, Version)| (k.0@, k.1@)).push((k.0@, k.1@)));
                assert(self@.take(i + 1).map_values(|f: FeaturePackView| fp_key(f)) =~= self@.take(i as int).map_values(|f: FeaturePackView| fp_key(f)).push(fp_key(f@)));
            }
            i = i + 1;
        }
        assert(self@.take(i as int) =~= self@);
        r
    }
}

impl FeaturePackRegistry {
    /// Whether the registry holds a pack with the key of `f`.
    pub fn contains_key_of(&self, f: &FeaturePack) -> (r: bool)
        ensures
            r == has_key(self@, fp_key(f@)),
    {
        let ghost key = fp_key(f@);
        let shortcut = chars_of(f.shortcut.as_str());
        let mut i: usize = 0;
        while i < self.feature_packs.len()
            invariant
                i <= self.feature_packs@.len(),
                key == (shortcut@, f.version@),
                key == fp_key(f@),
                forall|k: int| 0 <= k < i ==> fp_key(#[trigger] self@[k]) != key,
            decreases self.feature_packs.len() - i,
        {
            let c = compare_key(&self.feature_packs[i], &shortcut, &f.version);
            proof {
                lemma_key_facts(fp_key(self@[i as int]), key, key);
            }
            if c == 0 {
                assert(self@[i as int] == self.feature_packs@[i as int]@);
                assert(0 <= i < self@.len() && fp_key(self@[i as int]) == key);
                return true;
            }
            i = i + 1;
        }
        false
    }
}

/// Two packs that differ in an index have different port offsets, where both version
/// indices stay below a hundred.
proof fn lemma_offsets_differ(a: FeaturePackView, b: FeaturePackView)
    requires
        a.shortcut_index != b.shortcut_index || a.version_index != b.version_index,
        a.version_index < 100,
        b.version_index < 100,
    ensures
        spec_port_offset(a) != spec_port_offset(b),
{
    let (sa, va, sb, vb) = (a.shortcut_index as int, a.version_index as int, b.shortcut_index as int, b.version_index as int);
    if sa < sb {
        assert(sa * 100 + va < sb * 100 + vb) by (nonlinear_arith)
            requires
                sa < sb,
                0 <= va < 100,
                0 <= vb,
        ;
    } else if sb < sa {
        assert(sb * 100 + vb < sa * 100 + va) by (nonlinear_arith)
            requires
                sb < sa,
                0 <= vb < 100,
                0 <= va,
        ;
    }
}

/// The feature packs of a registry have pairwise distinct port offsets, all from `10000`
/// on, where no two share both indices and no shortcut has more than a hundred versions
/// before them.
pub proof fn lemma_unique_port_offsets(fps: Seq<FeaturePackView>)
    requires
        indices_distinct(fps),
        forall|k: int| 0 <= k < fps.len() ==> #[trigger] fps[k].version_index < 100,
    ensures
        forall|i: int, j: int|
            0 <= i < fps.len() && 0 <= j < fps.len() && i != j ==> spec_port_offset(#[trigger] fps[i])
                != spec_port_offset(#[trigger] fps[j]),
        forall|i: int| 0 <= i < fps.len() ==> spec_port_offset(#[trigger] fps[i]) >= 10000,
{
    assert forall|i: int, j: int|
        0 <= i < fps.len() && 0 <= j < fps.len() && i != j implies spec_port_offset(#[trigger] fps[i])
            != spec_port_offset(#[trigger] fps[j]) by {
        lemma_offsets_differ(fps[i], fps[j]);
    }
}

/// The laws of the string order, for three given strings.
pub proof fn lemma_str_facts(a: Seq<char>, b: Seq<char>, c: Seq<char>)
    ensures
        str_order(a, b) == -str_order(b, a),
        str_order(a, b) == 0 <==> a == b,
        str_order(a, b) < 0 && str_order(b, c) < 0 ==> str_order(a, c) < 0,
        str_order(a, b) <= 0 && str_order(b, c) < 0 ==> str_order(a, c) < 0,
{
    lemma_str_order();
    let so = |x: Seq<char>, y: Seq<char>| str_order(x, y);
    assert(so(a, b) == str_order(a, b));
    assert(so(b, a) == str_order(b, a));
    assert(so(b, c) == str_order(b, c));
    assert(so(a, c) == str_order(a, c));
}

/// Removing runs of equal neighbours from a sequence whose strings never decrease leaves
/// strictly increasing strings, the last of them the sequence's last.
proof fn lemma_dedup_sorted(t: Seq<Seq<char>>)
    requires
        forall|i: int, j: int| 0 <= i < j < t.len() ==> str_order(#[trigger] t[i], #[trigger] t[j]) <= 0,
    ensures
        forall|i: int, j: int|
            0 <= i < j < dedup(t).len() ==> str_order(#[trigger] dedup(t)[i], #[trigger] dedup(t)[j]) < 0,
        dedup(t).len() > 0 <==> t.len() > 0,
        t.len() > 0 ==> dedup(t).last() == t.last(),
        forall|k: int| 0 <= k < dedup(t).len() ==> t.contains(#[trigger] dedup(t)[k]),
    decreases t.len(),
{
    if t.len() > 0 {
        let u = t.drop_last();
        lemma_dedup_sorted(u);
        let p = dedup(u);
        let x = t.last();
        if !(p.len() > 0 && p.last() == x) {
            let q = p.push(x);
            assert forall|i: int, j: int| 0 <= i < j < q.len() implies str_order(#[trigger] q[i], #[trigger] q[j]) < 0 by {
                if j == q.len() - 1 {
                    assert(q[j] == x);
                    let l = p.last();
                    assert(l == u.last());
                    assert(str_order(t[u.len() - 1], t[t.len() - 1]) <= 0);
                    lemma_str_facts(l, x, x);
                    if i < p.len() - 1 {
                        assert(str_order(p[i], p[p.len() - 1]) < 0);
                        lemma_str_facts(p[i], l, x);
                    }
                } else {
                    assert(q[i] == p[i] && q[j] == p[j]);
                }
            }
            assert forall|k: int| 0 <= k < q.len() implies t.contains(#[trigger] q[k]) by {
                if k < p.len() {
                    assert(u.contains(p[k]));
                    let w = choose|w: int| 0 <= w < u.len() && u[w] == p[k];
                    assert(t[w] == p[k]);
                } else {
                    assert(t[t.len() - 1] == q[k]);
                }
            }
        } else {
            assert forall|k: int| 0 <= k < p.len() implies t.contains(#[trigger] p[k]) by {
                let w = choose|w: int| 0 <= w < u.len() && u[w] == p[k];
                assert(t[w] == p[k]);
            }
        }
    }
}

/// The known shortcuts of a registry are sorted and unique: each one is less than the
/// next.
pub proof fn lemma_known_shortcuts_sorted(s: Seq<FeaturePackView>)
    requires
        keys_increasing(s),
    ensures
        forall|i: int, j: int|
            0 <= i < j < spec_known_shortcuts(s).len() ==> str_order(
                #[trigger] spec_known_shortcuts(s)[i],
                #[trigger] spec_known_shortcuts(s)[j],
            ) < 0,
{
    let t = s.map_values(|f: FeaturePackView| f.shortcut);
    assert forall|i: int, j: int| 0 <= i < j < t.len() implies str_order(#[trigger] t[i], #[trigger] t[j]) <= 0 by {
        assert(key_order(fp_key(s[i]), fp_key(s[j])) < 0);
        assert(t[i] == s[i].shortcut && t[j] == s[j].shortcut);
    }
    lemma_dedup_sorted(t);
}

/// Each known shortcut is the shortcut of some pack.
pub proof fn lemma_known_shortcuts_from(s: Seq<FeaturePackView>, k: int)
    requires
        0 <= k < spec_known_shortcuts(s).len(),
    ensures
        exists|w: int| 0 <= w < s.len() && #[trigger] s[w].shortcut == spec_known_shortcuts(s)[k],
{
    let t = s.map_values(|f: FeaturePackView| f.shortcut);
    lemma_dedup_within(t);
    assert(t.contains(spec_known_shortcuts(s)[k]));
    let w = choose|w: int| 0 <= w < t.len() && t[w] == spec_known_shortcuts(s)[k];
    assert(s[w].shortcut == t[w]);
}

/// Every element of the deduplicated sequence is one of the sequence.
proof fn lemma_dedup_within(t: Seq<Seq<char>>)
    ensures
        forall|k: int| 0 <= k < dedup(t).len() ==> t.contains(#[trigger] dedup(t)[k]),
    decreases t.len(),
{
    if t.len() > 0 {
        let u = t.drop_last();
        lemma_dedup_within(u);
        let p = dedup(u);
        assert forall|k: int| 0 <= k < dedup(t).len() implies t.contains(#[trigger] dedup(t)[k]) by {
            if k < p.len() {
                assert(dedup(t)[k] == p[k]);
                let w = choose|w: int| 0 <= w < u.len() && u[w] == p[k];
                assert(t[w] == p[k]);
            } else {
                assert(dedup(t)[k] == t.last());
                assert(t[t.len() - 1] == t.last());
            }
        }
    }
}

} // verus!
