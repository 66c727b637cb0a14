//! Shell completion of WildFly versions and feature pack identifiers.
use vstd::prelude::*;

use crate::feature_pack::{spec_all_identifiers, FeaturePackRegistry};
use crate::options::DslOptions;
use crate::parse::{ok_of, parse_image_chars, spec_parse_image};
use crate::text::{
    all_digits, chars_eq, chars_of, decimal, digit_value, digits_value, first_dots_at, is_digit, lemma_decimal, lemma_decimal_injective, find_char, find_dots, first_char_at, has_dots, parse_u16, push_all,
    push_decimal, spec_parse_u16, split_once_char, split_once_dots, string_of, strings_of,
    strings_view, sub_chars, views,
};
use crate::wildfly_image::{
    image_refs_view, WildFlyImageRegistry, WildFlyImageView, DEVELOPMENT_VERSION,
};

verus! {

/// The short form of an identifier used in completions: `"34"` for a `.0` release,
/// `"26.1"` otherwise.
pub open spec fn simple_version(id: u16) -> Seq<char> {
    if id % 10 == 0 {
        decimal((id / 10) as nat)
    } else {
        decimal((id / 10) as nat) + seq!['.'] + decimal((id % 10) as nat)
    }
}

/// The short forms of all images in order, then `"dev"`.
pub open spec fn spec_completion_versions(imgs: Seq<WildFlyImageView>) -> Seq<Seq<char>> {
    imgs.map_values(|i: WildFlyImageView| simple_version(i.identifier)).push(DEVELOPMENT_VERSION@)
}

/// Distinct identifiers have distinct short forms.
proof fn lemma_simple_version_injective(a: u16, b: u16)
    requires
        simple_version(a) == simple_version(b),
    ensures
        a == b,
{
    let (ma, na, mb, nb) = ((a / 10) as nat, (a % 10) as nat, (b / 10) as nat, (b % 10) as nat);
    lemma_decimal(ma);
    lemma_decimal(na);
    lemma_decimal(mb);
    lemma_decimal(nb);
    let (sa, sb) = (simple_version(a), simple_version(b));
    if na == 0 && nb != 0 {
        let k = decimal(mb).len() as int;
        assert(sb[k] == '.');
        assert(!is_digit(sa[k]));
    } else if na != 0 && nb == 0 {
        let k = decimal(ma).len() as int;
        assert(sa[k] == '.');
        assert(!is_digit(sb[k]));
    } else if na == 0 && nb == 0 {
        lemma_decimal_injective(ma, mb);
    } else {
        let (ka, kb) = (decimal(ma).len() as int, decimal(mb).len() as int);
        assert(sa[ka] == '.');
        assert(sb[kb] == '.');
        if ka < kb {
            assert(sb[ka] == decimal(mb)[ka]);
            assert(is_digit(decimal(mb)[ka]));
        } else if kb < ka {
            assert(sa[kb] == decimal(ma)[kb]);
            assert(is_digit(decimal(ma)[kb]));
        }
        assert(sa.take(ka) =~= decimal(ma));
        assert(sb.take(kb) =~= decimal(mb));
        assert(sa.skip(ka + 1) =~= decimal(na));
        assert(sb.skip(kb + 1) =~= decimal(nb));
        lemma_decimal_injective(ma, mb);
        lemma_decimal_injective(na, nb);
    }
    assert(a == ma * 10 + na);
    assert(b == mb * 10 + nb);
}

/// The WildFly versions offered for completion are pairwise distinct.
pub proof fn lemma_completion_versions_distinct(imgs: Seq<WildFlyImageView>)
    requires
        crate::wildfly_image::ids_increasing(imgs),
    ensures
        spec_completion_versions(imgs).no_duplicates(),
{
    let c = spec_completion_versions(imgs);
    reveal_strlit("dev");
    assert forall|i: int, j: int| 0 <= i < c.len() && 0 <= j < c.len() && i != j implies c[i] != c[j] by {
        if i < imgs.len() && j < imgs.len() {
            if c[i] == c[j] {
                lemma_simple_version_injective(imgs[i].identifier, imgs[j].identifier);
                if i < j {
                    assert(imgs[i].identifier < imgs[j].identifier);
                } else {
                    assert(imgs[j].identifier < imgs[i].identifier);
                }
            }
        } else {
            let k = if i < imgs.len() { i } else { j };
            if k < imgs.len() {
                let id = imgs[k].identifier;
                lemma_decimal((id / 10) as nat);
                assert(is_digit(c[k][0]));
                assert(!is_digit(DEVELOPMENT_VERSION@[0]));
            }
        }
    }
}

/// `a:b` splits back into `a` and `b` where neither left part holds a `:`.
proof fn lemma_colon_split(s1: Seq<char>, t1: Seq<char>, s2: Seq<char>, t2: Seq<char>)
    requires
        !s1.contains(':'),
        !s2.contains(':'),
        s1 + seq![':'] + t1 == s2 + seq![':'] + t2,
    ensures
        s1 == s2,
        t1 == t2,
{
    let (a, b) = (s1 + seq![':'] + t1, s2 + seq![':'] + t2);
    if s1.len() < s2.len() {
        assert(a[s1.len() as int] == ':');
        assert(b[s1.len() as int] == s2[s1.len() as int]);
        assert(s2.contains(':'));
    } else if s2.len() < s1.len() {
        assert(b[s2.len() as int] == ':');
        assert(a[s2.len() as int] == s1[s2.len() as int]);
        assert(s1.contains(':'));
    }
    assert(s1 =~= a.take(s1.len() as int));
    assert(s2 =~= b.take(s2.len() as int));
    assert(t1 =~= a.skip(s1.len() as int + 1));
    assert(t2 =~= b.skip(s2.len() as int + 1));
}

/// A WildFly version offered for completion holds no `:`.
proof fn lemma_completion_version_no_colon(imgs: Seq<WildFlyImageView>, k: int)
    requires
        0 <= k < spec_completion_versions(imgs).len(),
    ensures
        !spec_completion_versions(imgs)[k].contains(':'),
{
    let c = spec_completion_versions(imgs)[k];
    reveal_strlit("dev");
    if c.contains(':') {
        let w = choose|w: int| 0 <= w < c.len() && c[w] == ':';
        if k < imgs.len() {
            let id = imgs[k].identifier;
            lemma_decimal((id / 10) as nat);
            lemma_decimal((id % 10) as nat);
            let d = decimal((id / 10) as nat);
            if w < d.len() {
                assert(c[w] == d[w]);
                assert(is_digit(d[w]));
            } else if w > d.len() {
                assert(c[w] == decimal((id % 10) as nat)[w - d.len() - 1]);
            }
        }
    }
}

/// The feature pack identifiers offered for completion are pairwise distinct, where no
/// shortcut holds a `:`.
pub proof fn lemma_all_feature_packs_distinct(fps: Seq<crate::feature_pack::FeaturePackView>)
    requires
        crate::feature_pack::keys_increasing(fps),
        crate::feature_pack::versions_reparse(fps),
        forall|j: int| 0 <= j < fps.len() ==> !(#[trigger] fps[j]).shortcut.contains(':'),
    ensures
        spec_all_identifiers(fps).no_duplicates(),
{
    let ks = crate::feature_pack::spec_known_shortcuts(fps);
    let ids = fps.map_values(|f: crate::feature_pack::FeaturePackView| crate::feature_pack::spec_fp_identifier(f));
    let all = spec_all_identifiers(fps);
    assert(all == ks + ids);
    crate::feature_pack::lemma_known_shortcuts_sorted(fps);
    crate::feature_pack::lemma_key_order();
    assert forall|k: int| 0 <= k < ks.len() implies !(#[trigger] ks[k]).contains(':') by {
        crate::feature_pack::lemma_known_shortcuts_from(fps, k);
    }
    assert forall|i: int, j: int| 0 <= i < all.len() && 0 <= j < all.len() && i != j implies all[i] != all[j] by {
        if i < ks.len() && j < ks.len() {
            let (a, b) = if i < j { (i, j) } else { (j, i) };
            assert(crate::order::str_order(ks[a], ks[b]) < 0);
            crate::feature_pack::lemma_str_facts(ks[a], ks[b], ks[b]);
        } else if i >= ks.len() && j >= ks.len() {
            let (fi, fj) = (fps[i - ks.len()], fps[j - ks.len()]);
            assert(all[i] == fi.shortcut + seq![':'] + crate::version::version_text(fi.version));
            assert(all[j] == fj.shortcut + seq![':'] + crate::version::version_text(fj.version));
            if all[i] == all[j] {
                lemma_colon_split(fi.shortcut, crate::version::version_text(fi.version), fj.shortcut, crate::version::version_text(fj.version));
                assert(fi.version == fj.version);
                let (a, b) = if i < j { (i - ks.len(), j - ks.len()) } else { (j - ks.len(), i - ks.len()) };
                assert(crate::feature_pack::key_order(crate::feature_pack::fp_key(fps[a]), crate::feature_pack::fp_key(fps[b])) < 0);
                crate::feature_pack::lemma_key_facts(crate::feature_pack::fp_key(fps[a]), crate::feature_pack::fp_key(fps[b]), crate::feature_pack::fp_key(fps[b]));
            }
        } else {
            let (s, v) = if i < ks.len() { (i, j) } else { (j, i) };
            let f = fps[v - ks.len()];
            assert(all[v] == f.shortcut + seq![':'] + crate::version::version_text(f.version));
            assert(all[v][f.shortcut.len() as int] == ':');
            assert(all[v].contains(':'));
            assert(!all[s].contains(':'));
        }
    }
}

/// All identifiers offered for completion are pairwise distinct, where no shortcut holds
/// a `:` or is named like a WildFly version.
pub proof fn lemma_all_meta_items_distinct(
    imgs: Seq<WildFlyImageView>,
    fps: Seq<crate::feature_pack::FeaturePackView>,
)
    requires
        crate::wildfly_image::ids_increasing(imgs),
        crate::feature_pack::keys_increasing(fps),
        crate::feature_pack::versions_reparse(fps),
        forall|j: int| 0 <= j < fps.len() ==> !(#[trigger] fps[j]).shortcut.contains(':'),
        forall|j: int, k: int|
            0 <= j < fps.len() && 0 <= k < spec_completion_versions(imgs).len() ==> (#[trigger] fps[j]).shortcut
                != #[trigger] spec_completion_versions(imgs)[k],
    ensures
        spec_all_meta_items(imgs, fps).no_duplicates(),
{
    let vs = spec_completion_versions(imgs);
    let ids = spec_all_identifiers(fps);
    let ks = crate::feature_pack::spec_known_shortcuts(fps);
    let all = spec_all_meta_items(imgs, fps);
    lemma_completion_versions_distinct(imgs);
    lemma_all_feature_packs_distinct(fps);
    assert forall|i: int, j: int| 0 <= i < all.len() && 0 <= j < all.len() && i != j implies all[i] != all[j] by {
        if i < vs.len() && j < vs.len() {
            assert(all[i] == vs[i] && all[j] == vs[j]);
        } else if i >= vs.len() && j >= vs.len() {
            assert(all[i] == ids[i - vs.len()] && all[j] == ids[j - vs.len()]);
        } else {
            let (a, b) = if i < vs.len() { (i, j) } else { (j, i) };
            let m = b - vs.len();
            assert(all[b] == ids[m]);
            lemma_completion_version_no_colon(imgs, a);
            if m < ks.len() {
                crate::feature_pack::lemma_known_shortcuts_from(fps, m);
                let w = choose|w: int| 0 <= w < fps.len() && fps[w].shortcut == ks[m];
                assert(fps[w].shortcut != vs[a]);
            } else {
                let f = fps[m - ks.len()];
                assert(ids[m] == f.shortcut + seq![':'] + crate::version::version_text(f.version));
                assert(ids[m][f.shortcut.len() as int] == ':');
                assert(ids[m].contains(':'));
            }
        }
    }
}

/// The short form of an identifier.
fn simple_version_chars(id: u16) -> (r: Vec<char>)
    ensures
        r@ == simple_version(id),
{
    let mut r: Vec<char> = Vec::new();
    push_decimal(&mut r, (id / 10) as u64);
    if id % 10 != 0 {
        r.push('.');
        push_decimal(&mut r, (id % 10) as u64);
    }
    assert(r@ =~= simple_version(id));
    r
}

/// The short forms of all images in order, then `"dev"`.
fn completion_version_chars(registry: &WildFlyImageRegistry) -> (r: Vec<Vec<char>>)
    ensures
        views(r@) == spec_completion_versions(registry@),
{
    let all = registry.all();
    let ghost imgs = image_refs_view(all@);
    let ghost sv = |i: WildFlyImageView| simple_version(i.identifier);
    let mut r: Vec<Vec<char>> = Vec::new();
    let mut k: usize = 0;
    while k < all.len()
        invariant
            k <= all@.len(),
            imgs == image_refs_view(all@),
            sv == (|i: WildFlyImageView| simple_version(i.identifier)),
            views(r@) == imgs.take(k as int).map_values(sv),
        decreases all.len() - k,
    {
        let v = simple_version_chars(all[k].identifier);
        let ghost before = views(r@);
        r.push(v);
        proof {
            assert(views(r@) =~= before.push(v@));
            assert(imgs.take(k + 1).map_values(sv) =~= imgs.take(k as int).map_values(sv).push(sv(imgs[k as int])));
        }
        k = k + 1;
    }
    assert(imgs.take(k as int) =~= imgs);
    let ghost before = views(r@);
    r.push(chars_of(DEVELOPMENT_VERSION));
    assert(views(r@) =~= before.push(DEVELOPMENT_VERSION@));
    r
}

/// The short forms of all images in order (`"34"` for a `.0` release, `"26.1"` otherwise),
/// then `"dev"`.
pub fn completion_versions(registry: &WildFlyImageRegistry) -> (r: Vec<String>)
    ensures
        strings_view(r@) == spec_completion_versions(registry@),
{
    strings_of(&completion_version_chars(registry))
}

/// Returns all WildFly version identifiers for shell completion.
///
/// Includes two-digit major versions (e.g. `"34"`), `major.minor` versions (e.g. `"26.1"`),
/// and `"dev"`.
pub fn all_wildfly_images(wildfly_images: &WildFlyImageRegistry) -> (r: Vec<String>)
    ensures
        strings_view(r@) == spec_completion_versions(wildfly_images@),
{
    completion_versions(wildfly_images)
}

/// Returns all feature pack identifiers for shell completion.
///
/// Includes bare shortcuts (e.g. `"ai"`) and versioned forms (e.g. `"ai:0.9.0"`).
pub fn all_feature_packs(feature_packs: &FeaturePackRegistry) -> (r: Vec<String>)
    ensures
        strings_view(r@) == spec_all_identifiers(feature_packs@),
{
    feature_packs.all_identifiers()
}

/// All identifiers for completion: WildFly versions, then feature pack identifiers.
pub open spec fn spec_all_meta_items(
    imgs: Seq<WildFlyImageView>,
    fps: Seq<crate::feature_pack::FeaturePackView>,
) -> Seq<Seq<char>> {
    spec_completion_versions(imgs) + spec_all_identifiers(fps)
}

/// All identifiers for completion, as characters.
fn meta_candidates(wildfly_images: &WildFlyImageRegistry, feature_packs: &FeaturePackRegistry) -> (r: Vec<Vec<char>>)
    ensures
        views(r@) == spec_all_meta_items(wildfly_images@, feature_packs@),
{
    let mut r = completion_version_chars(wildfly_images);
    let ghost a = views(r@);
    let mut ids = feature_packs.identifier_chars();
    let ghost b = views(ids@);
    let ghost (ra, ib) = (r@, ids@);
    r.append(&mut ids);
    assert(views(r@) =~= a + b) by {
        assert(r@ == ra + ib);
        assert forall|k: int| 0 <= k < r@.len() implies #[trigger] views(r@)[k] == (a + b)[k] by {
            if k < ra.len() {
                assert(r@[k] == ra[k]);
            } else {
                assert(r@[k] == ib[k - ra.len()]);
            }
        }
    }
    r
}

/// Returns all identifiers (WildFly versions and feature packs) for shell completion.
pub fn all_meta_items(wildfly_images: &WildFlyImageRegistry, feature_packs: &FeaturePackRegistry) -> (r: Vec<
    String,
>)
    ensures
        strings_view(r@) == spec_all_meta_items(wildfly_images@, feature_packs@),
{
    strings_of(&meta_candidates(wildfly_images, feature_packs))
}


/// The position of the last `c` in `s`, or `-1`.
pub open spec fn rfind(s: Seq<char>, c: char) -> int
    decreases s.len(),
{
    if s.len() == 0 {
        -1
    } else if s.last() == c {
        s.len() - 1
    } else {
        rfind(s.drop_last(), c)
    }
}

/// Splits the input into the part up to and including its last comma and the token after
/// it; a trailing comma leaves the whole input as prefix and an empty token.
pub open spec fn spec_prefix_token(p: Seq<char>) -> (Seq<char>, Seq<char>) {
    let pos = rfind(p, ',');
    if pos < 0 {
        (Seq::empty(), p)
    } else if pos < p.len() - 1 {
        (p.take(pos + 1), p.skip(pos + 1))
    } else {
        (p, Seq::empty())
    }
}

/// The length of the part of `p` up to and including its last comma (`0` without a comma).
fn prefix_end(p: &Vec<char>) -> (r: usize)
    ensures
        r <= p@.len(),
        r == rfind(p@, ',') + 1,
{
    let mut i: usize = p.len();
    assert(p@.take(i as int) =~= p@);
    while i > 0 && p[i - 1] != ','
        invariant
            i <= p@.len(),
            rfind(p@, ',') == rfind(p@.take(i as int), ','),
        decreases i,
    {
        assert(p@.take(i as int).drop_last() =~= p@.take(i - 1));
        i = i - 1;
    }
    proof {
        if i > 0 {
            assert(p@.take(i as int).last() == ',');
        } else {
            assert(p@.take(0) =~= Seq::<char>::empty());
        }
    }
    i
}

/// Splits the input at its last comma.
fn prefix_token_chars(p: &Vec<char>) -> (r: (Vec<char>, Vec<char>))
    ensures
        (r.0@, r.1@) == spec_prefix_token(p@),
{
    let i = prefix_end(p);
    if i == 0 {
        (Vec::new(), sub_chars(p, 0, p.len()))
    } else if i < p.len() {
        (sub_chars(p, 0, i), sub_chars(p, i, p.len()))
    } else {
        (sub_chars(p, 0, p.len()), Vec::new())
    }
}

/// Splits a partial input into the part up to and including its last comma and the token
/// after it.
pub fn parse_prefix_token<'a>(parameter: Option<&'a str>) -> (r: (&'a str, &'a str))
    ensures
        (r.0@, r.1@) == spec_prefix_token(
            match parameter {
                Some(p) => p@,
                None => Seq::<char>::empty(),
            },
        ),
{
    proof {
        reveal_strlit("");
    }
    match parameter {
        None => ("", ""),
        Some(p) => {
            let chars = chars_of(p);
            let n = chars.len();
            let i = prefix_end(&chars);
            if i == 0 {
                ("", p)
            } else if i < n {
                let (a, b) = (p.substring_char(0, i), p.substring_char(i, n));
                assert(a@ =~= p@.take(i as int));
                assert(b@ =~= p@.skip(i as int));
                (a, b)
            } else {
                (p, "")
            }
        },
    }
}

/// A multiplier prefix during completion: `"3x"` and the rest for a multiplier above one.
pub open spec fn spec_completion_multiplier(t: Seq<char>) -> Option<(Seq<char>, Seq<char>)> {
    match split_once_char(t, 'x') {
        Some((prefix, suffix)) => if !suffix.contains('x') {
            match spec_parse_u16(prefix) {
                Some(m) => if m > 1 {
                    Some((decimal(m as nat) + seq!['x'], suffix))
                } else {
                    None
                },
                None => None,
            }
        } else {
            None
        },
        None => None,
    }
}

/// Splits a multiplier prefix above one (`"3x"`) off a completion token.
fn extract_completion_multiplier(t: &Vec<char>) -> (r: Option<(Vec<char>, Vec<char>)>)
    ensures
        match r {
            Some((a, b)) => spec_completion_multiplier(t@) == Some((a@, b@)),
            None => spec_completion_multiplier(t@) is None,
        },
{
    match find_char(t, 'x') {
        None => None,
        Some(i) => {
            assert(first_char_at(t@, 'x', i as int));
            let len = t.len();
            assert(i < len);
            let prefix = sub_chars(t, 0, i);
            let suffix = sub_chars(t, i + 1, t.len());
            if find_char(&suffix, 'x').is_some() {
                return None;
            }
            match parse_u16(prefix.as_slice()) {
                Some(m) => if m > 1 {
                    let mut mp: Vec<char> = Vec::new();
                    push_decimal(&mut mp, m as u64);
                    mp.push('x');
                    assert(mp@ =~= decimal(m as nat) + seq!['x']);
                    Some((mp, suffix))
                } else {
                    None
                },
                None => None,
            }
        },
    }
}

/// Whether `s` starts with `p`.
pub open spec fn starts_with(s: Seq<char>, p: Seq<char>) -> bool {
    p.len() <= s.len() && s.take(p.len() as int) == p
}

/// `s` without the prefix `p` where it starts with it, else `s`.
pub open spec fn strip_prefix_or(s: Seq<char>, p: Seq<char>) -> Seq<char> {
    if starts_with(s, p) {
        s.skip(p.len() as int)
    } else {
        s
    }
}

/// Whether `s` starts with `p`.
fn starts_with_chars(s: &Vec<char>, p: &Vec<char>) -> (r: bool)
    ensures
        r == starts_with(s@, p@),
{
    if p.len() > s.len() {
        return false;
    }
    let t = sub_chars(s, 0, p.len());
    chars_eq(&t, p)
}

/// The identifier parts of a version the input names, if any.
pub open spec fn try_parse_version(input: Seq<char>, imgs: Seq<WildFlyImageView>) -> Option<(u16, u16)> {
    match spec_parse_image(input, imgs) {
        Ok(i) => Some(((i.identifier / 10) as u16, (i.identifier % 10) as u16)),
        Err(_) => None,
    }
}

/// The short forms of the images after `major.minor`.
pub open spec fn spec_versions_after(major: u16, minor: u16, imgs: Seq<WildFlyImageView>) -> Seq<Seq<char>> {
    imgs.filter(
        |i: WildFlyImageView|
            if i.identifier / 10 == major {
                i.identifier % 10 > minor
            } else {
                i.identifier / 10 > major
            },
    ).map_values(|i: WildFlyImageView| simple_version(i.identifier))
}

/// Whether an image is offered after `..` followed by `after`: after the start identifier,
/// and with a major version in the decade of a single digit, or equal to the number with a
/// minor version.
pub open spec fn offered_after_dots(i: WildFlyImageView, after: Seq<char>, number: u16, start_id: int) -> bool {
    &&& i.identifier > start_id
    &&& if 1 <= number <= 9 && !(after.len() > 0 && after.last() == '.') {
        number * 10 <= i.identifier / 10 < (number + 1) * 10
    } else {
        i.identifier / 10 == number && i.identifier % 10 > 0
    }
}

/// The completions of the text after `..` in a range that starts at `start_major.start_minor`.
pub open spec fn spec_after_dots(
    after: Seq<char>,
    start_major: u16,
    start_minor: u16,
    imgs: Seq<WildFlyImageView>,
) -> Seq<Seq<char>> {
    if spec_parse_image(after, imgs) is Ok {
        Seq::empty()
    } else {
        let stripped = if after.len() > 0 && after.last() == '.' {
            after.drop_last()
        } else {
            after
        };
        match spec_parse_u16(stripped) {
            None => Seq::empty(),
            Some(number) => imgs.filter(
                |i: WildFlyImageView| offered_after_dots(i, after, number, start_major * 10 + start_minor),
            ).map_values(|i: WildFlyImageView| strip_prefix_or(simple_version(i.identifier), after)),
        }
    }
}

/// The token and suggestions for a token, where range completion may apply.
pub open spec fn spec_inner(
    token: Seq<char>,
    candidates: Seq<Seq<char>>,
    imgs: Option<Seq<WildFlyImageView>>,
    opts: DslOptions,
) -> (Seq<char>, Seq<Seq<char>>) {
    if !opts.ranges || imgs is None {
        (Seq::empty(), candidates)
    } else {
        let imgs = imgs->0;
        let dots = seq!['.', '.'];
        if token == dots {
            (token, spec_completion_versions(imgs).skip(1))
        } else if starts_with(token, dots) {
            (token, spec_after_dots(token.skip(2), 0, 0, imgs))
        } else if token.len() >= 2 && token.skip(token.len() - 2) == dots {
            (
                token,
                match try_parse_version(token.take(token.len() - 2), imgs) {
                    Some((major, minor)) => spec_versions_after(major, minor, imgs),
                    None => Seq::empty(),
                },
            )
        } else if has_dots(token) {
            let (before, after) = split_once_dots(token)->0;
            (
                token,
                match try_parse_version(before, imgs) {
                    Some((major, minor)) => spec_after_dots(after, major, minor, imgs),
                    None => Seq::empty(),
                },
            )
        } else {
            (Seq::empty(), candidates)
        }
    }
}

/// The prefix, token and suggestions for a partial input.
pub open spec fn spec_find(
    param: Seq<char>,
    candidates: Seq<Seq<char>>,
    imgs: Option<Seq<WildFlyImageView>>,
    opts: DslOptions,
) -> (Seq<char>, Seq<char>, Seq<Seq<char>>) {
    let (prefix, token) = spec_prefix_token(param);
    if !opts.ranges && !opts.multipliers {
        (Seq::empty(), Seq::empty(), candidates)
    } else if opts.multipliers && spec_completion_multiplier(token) is Some {
        let (mult, rest) = spec_completion_multiplier(token)->0;
        let (t, sugg) = spec_inner(rest, candidates, imgs, opts);
        (prefix, mult + t, sugg)
    } else {
        let (t, sugg) = spec_inner(token, candidates, imgs, opts);
        (prefix, t, sugg)
    }
}

/// The completions of a partial input: each suggestion behind the input's prefix and token.
pub open spec fn spec_suggestions(
    input: Seq<char>,
    candidates: Seq<Seq<char>>,
    imgs: Option<Seq<WildFlyImageView>>,
    opts: DslOptions,
) -> Seq<Seq<char>> {
    let (prefix, token, sugg) = spec_find(input, candidates, imgs, opts);
    sugg.map_values(|x: Seq<char>| prefix + token + x)
}


/// The short forms of the images after `major.minor`.
fn versions_after(major: u16, minor: u16, registry: &WildFlyImageRegistry) -> (r: Vec<Vec<char>>)
    ensures
        views(r@) == spec_versions_after(major, minor, registry@),
{
    let all = registry.all();
    let ghost imgs = image_refs_view(all@);
    let ghost pred = |i: WildFlyImageView|
        if i.identifier / 10 == major {
            i.identifier % 10 > minor
        } else {
            i.identifier / 10 > major
        };
    let ghost sv = |i: WildFlyImageView| simple_version(i.identifier);
    let mut r: Vec<Vec<char>> = Vec::new();
    let mut k: usize = 0;
    assert(imgs.take(0).filter(pred) =~= Seq::<WildFlyImageView>::empty());
    while k < all.len()
        invariant
            k <= all@.len(),
            imgs == image_refs_view(all@),
            imgs == registry@,
            pred == (|i: WildFlyImageView|
                if i.identifier / 10 == major {
                    i.identifier % 10 > minor
                } else {
                    i.identifier / 10 > major
                }),
            sv == (|i: WildFlyImageView| simple_version(i.identifier)),
            views(r@) == imgs.take(k as int).filter(pred).map_values(sv),
        decreases all.len() - k,
    {
        let id = all[k].identifier;
        let ghost x = imgs[k as int];
        proof {
            assert(imgs.take(k + 1) =~= imgs.take(k as int).push(x));
            imgs.take(k as int).lemma_filter_push(x, pred);
        }
        let (maj, min) = (id / 10, id % 10);
        let keep = if maj == major {
            min > minor
        } else {
            maj > major
        };
        if keep {
            let v = simple_version_chars(id);
            let ghost before = views(r@);
            r.push(v);
            assert(views(r@) =~= before.push(v@));
            assert(imgs.take(k + 1).filter(pred).map_values(sv) =~= imgs.take(k as int).filter(pred).map_values(sv).push(sv(x)));
        }
        k = k + 1;
    }
    assert(imgs.take(k as int) =~= imgs);
    r
}

/// The completions of the text after `..`.
fn suggest_after_dots(after: &Vec<char>, start_major: u16, start_minor: u16, registry: &WildFlyImageRegistry) -> (r: Vec<
    Vec<char>,
>)
    requires
        start_major * 10 + start_minor <= u16::MAX,
    ensures
        views(r@) == spec_after_dots(after@, start_major, start_minor, registry@),
{
    if parse_image_chars(after, registry).is_ok() {
        return empty_list();
    }
    let n = after.len();
    let ends_dot = n > 0 && after[n - 1] == '.';
    let stripped = if ends_dot {
        sub_chars(after, 0, n - 1)
    } else {
        sub_chars(after, 0, n)
    };
    assert(stripped@ == (if ends_dot { after@.drop_last() } else { after@ }));
    let number = match parse_u16(stripped.as_slice()) {
        None => return empty_list(),
        Some(v) => v,
    };
    let start_id: u16 = start_major * 10 + start_minor;
    let all = registry.all();
    let ghost imgs = image_refs_view(all@);
    let ghost pred = |i: WildFlyImageView| offered_after_dots(i, after@, number, start_major * 10 + start_minor);
    let ghost sv = |i: WildFlyImageView| strip_prefix_or(simple_version(i.identifier), after@);
    let mut r: Vec<Vec<char>> = Vec::new();
    let mut k: usize = 0;
    assert(imgs.take(0).filter(pred) =~= Seq::<WildFlyImageView>::empty());
    while k < all.len()
        invariant
            k <= all@.len(),
            imgs == image_refs_view(all@),
            imgs == registry@,
            start_id == start_major * 10 + start_minor,
            ends_dot == (after@.len() > 0 && after@.last() == '.'),
            pred == (|i: WildFlyImageView| offered_after_dots(i, after@, number, start_major * 10 + start_minor)),
            sv == (|i: WildFlyImageView| strip_prefix_or(simple_version(i.identifier), after@)),
            views(r@) == imgs.take(k as int).filter(pred).map_values(sv),
        decreases all.len() - k,
    {
        let id = all[k].identifier;
        let ghost x = imgs[k as int];
        proof {
            assert(imgs.take(k + 1) =~= imgs.take(k as int).push(x));
            imgs.take(k as int).lemma_filter_push(x, pred);
        }
        let maj = id / 10;
        let keep = id > start_id && if 1 <= number && number <= 9 && !ends_dot {
            number * 10 <= maj && maj < (number + 1) * 10
        } else {
            maj == number && id % 10 > 0
        };
        if keep {
            let v = simple_version_chars(id);
            let w = if starts_with_chars(&v, after) {
                sub_chars(&v, after.len(), v.len())
            } else {
                v
            };
            let ghost before = views(r@);
            r.push(w);
            assert(views(r@) =~= before.push(w@));
            assert(imgs.take(k + 1).filter(pred).map_values(sv) =~= imgs.take(k as int).filter(pred).map_values(sv).push(sv(x)));
        }
        k = k + 1;
    }
    assert(imgs.take(k as int) =~= imgs);
    r
}

/// The identifier parts of a version the input names, if any.
fn version_parts(input: &Vec<char>, registry: &WildFlyImageRegistry) -> (r: Option<(u16, u16)>)
    ensures
        r == try_parse_version(input@, registry@),
{
    match parse_image_chars(input, registry) {
        Ok(i) => Some((i.identifier / 10, i.identifier % 10)),
        Err(_) => None,
    }
}

/// The empty list of suggestions.
fn empty_list() -> (r: Vec<Vec<char>>)
    ensures
        views(r@) == Seq::<Seq<char>>::empty(),
{
    let r: Vec<Vec<char>> = Vec::new();
    assert(views(r@) =~= Seq::<Seq<char>>::empty());
    r
}

/// A copy of a list of character vectors.
fn copy_all(v: &Vec<Vec<char>>) -> (r: Vec<Vec<char>>)
    ensures
        views(r@) == views(v@),
{
    let mut r: Vec<Vec<char>> = Vec::new();
    let mut k: usize = 0;
    while k < v.len()
        invariant
            k <= v@.len(),
            views(r@) == views(v@).take(k as int),
        decreases v.len() - k,
    {
        let c = sub_chars(&v[k], 0, v[k].len());
        assert(c@ =~= v@[k as int]@);
        let ghost before = views(r@);
        r.push(c);
        assert(views(r@) =~= before.push(c@));
        assert(views(v@).take(k + 1) =~= views(v@).take(k as int).push(v@[k as int]@));
        k = k + 1;
    }
    assert(views(v@).take(k as int) =~= views(v@));
    r
}

/// The token and suggestions for a token, where range completion may apply.
fn find_suggestions_inner(
    token: &Vec<char>,
    candidates: &Vec<Vec<char>>,
    registry: Option<&WildFlyImageRegistry>,
    options: &DslOptions,
) -> (r: (Vec<char>, Vec<Vec<char>>))
    ensures
        (r.0@, views(r.1@)) == spec_inner(
            token@,
            views(candidates@),
            match registry {
                Some(g) => Some(g@),
                None => None,
            },
            *options,
        ),
{
    if !options.ranges || registry.is_none() {
        return (Vec::new(), copy_all(candidates));
    }
    let registry = registry.unwrap();
    let mut dots: Vec<char> = Vec::new();
    dots.push('.');
    dots.push('.');
    assert(dots@ =~= seq!['.', '.']);
    let n = token.len();
    if chars_eq(token, &dots) {
        let versions = completion_version_chars(registry);
        assert(views(versions@).len() >= 1);
        let rest = sub_vecs(&versions, 1);
        (sub_chars(token, 0, n), rest)
    } else if starts_with_chars(token, &dots) {
        let after = sub_chars(token, 2, n);
        (sub_chars(token, 0, n), suggest_after_dots(&after, 0, 0, registry))
    } else if n >= 2 && chars_eq(&sub_chars(token, n - 2, n), &dots) {
        let before = sub_chars(token, 0, n - 2);
        assert(token@.skip(n - 2) =~= token@.subrange(n - 2, n as int));
        let versions = match version_parts(&before, registry) {
            Some((major, minor)) => versions_after(major, minor, registry),
            None => empty_list(),
        };
        (sub_chars(token, 0, n), versions)
    } else {
        match find_dots(token) {
            Some(i) => {
                assert(crate::text::first_dots_at(token@, i as int));
                assert(i + 2 <= n);
                let before = sub_chars(token, 0, i);
                let after = sub_chars(token, i + 2, n);
                let versions = match version_parts(&before, registry) {
                    Some((major, minor)) => {
                        proof {
                            lemma_parts_fit(before@, registry@);
                        }
                        suggest_after_dots(&after, major, minor, registry)
                    },
                    None => Vec::new(),
                };
                        (sub_chars(token, 0, n), versions)
            },
            None => (Vec::new(), copy_all(candidates)),
        }
    }
}

/// The identifier parts of a parsed version make up a `u16` identifier again.
proof fn lemma_parts_fit(input: Seq<char>, imgs: Seq<WildFlyImageView>)
    ensures
        try_parse_version(input, imgs) matches Some((major, minor)) ==> major * 10 + minor <= u16::MAX,
{
}

/// The elements of `v` from position `from` on, copied.
fn sub_vecs(v: &Vec<Vec<char>>, from: usize) -> (r: Vec<Vec<char>>)
    requires
        from <= v@.len(),
    ensures
        views(r@) == views(v@).skip(from as int),
{
    let mut r: Vec<Vec<char>> = Vec::new();
    let mut k: usize = from;
    while k < v.len()
        invariant
            from <= k <= v@.len(),
            views(r@) == views(v@).subrange(from as int, k as int),
        decreases v.len() - k,
    {
        let c = sub_chars(&v[k], 0, v[k].len());
        assert(c@ =~= v@[k as int]@);
        let ghost before = views(r@);
        r.push(c);
        assert(views(r@) =~= before.push(c@));
        assert(views(v@).subrange(from as int, k + 1) =~= views(v@).subrange(from as int, k as int).push(v@[k as int]@));
        k = k + 1;
    }
    assert(views(v@).skip(from as int) =~= views(v@).subrange(from as int, v@.len() as int));
    r
}

/// The prefix, token and suggestions for a partial input.
fn find_suggestions(
    param: &Vec<char>,
    candidates: &Vec<Vec<char>>,
    registry: Option<&WildFlyImageRegistry>,
    options: &DslOptions,
) -> (r: (Vec<char>, Vec<char>, Vec<Vec<char>>))
    ensures
        (r.0@, r.1@, views(r.2@)) == spec_find(
            param@,
            views(candidates@),
            match registry {
                Some(g) => Some(g@),
                None => None,
            },
            *options,
        ),
{
    let (prefix, token) = prefix_token_chars(param);
    if !options.ranges && !options.multipliers {
        return (Vec::new(), Vec::new(), copy_all(candidates));
    }
    if options.multipliers {
        match extract_completion_multiplier(&token) {
            Some((mult, rest)) => {
                let (t, sugg) = find_suggestions_inner(&rest, candidates, registry, options);
                let mut out_token = mult;
                push_all(&mut out_token, &t);
                return (prefix, out_token, sugg);
            },
            None => {},
        }
    }
    let (t, sugg) = find_suggestions_inner(&token, candidates, registry, options);
    (prefix, t, sugg)
}

/// The completions of a partial input.
fn build_suggestions(
    input: &str,
    candidates: &Vec<Vec<char>>,
    registry: Option<&WildFlyImageRegistry>,
    options: &DslOptions,
) -> (r: Vec<String>)
    ensures
        strings_view(r@) == spec_suggestions(
            input@,
            views(candidates@),
            match registry {
                Some(g) => Some(g@),
                None => None,
            },
            *options,
        ),
{
    let (prefix, token, sugg) = find_suggestions(&chars_of(input), candidates, registry, options);
    let mut head = prefix;
    push_all(&mut head, &token);
    let ghost f = |x: Seq<char>| prefix@ + token@ + x;
    let mut out: Vec<Vec<char>> = Vec::new();
    let mut k: usize = 0;
    while k < sugg.len()
        invariant
            k <= sugg@.len(),
            head@ == prefix@ + token@,
            f == (|x: Seq<char>| prefix@ + token@ + x),
            views(out@) == views(sugg@).take(k as int).map_values(f),
        decreases sugg.len() - k,
    {
        let mut line = sub_chars(&head, 0, head.len());
        assert(line@ =~= head@);
        push_all(&mut line, &sugg[k]);
        let ghost before = views(out@);
        out.push(line);
        assert(views(out@) =~= before.push(line@));
        assert(views(sugg@).take(k + 1).map_values(f) =~= views(sugg@).take(k as int).map_values(f).push(f(sugg@[k as int]@)));
        k = k + 1;
    }
    assert(views(sugg@).take(k as int) =~= views(sugg@));
    strings_of(&out)
}

/// Returns completion suggestions for WildFly versions based on a partial input string.
///
/// Handles comma-separated lists, range expressions, and multiplier prefixes.
pub fn suggest_wildfly_images(input: &str, wildfly_images: &WildFlyImageRegistry, options: &DslOptions) -> (r: Vec<
    String,
>)
    ensures
        strings_view(r@) == spec_suggestions(
            input@,
            spec_completion_versions(wildfly_images@),
            Some(wildfly_images@),
            *options,
        ),
{
    let candidates = completion_version_chars(wildfly_images);
    build_suggestions(input, &candidates, Some(wildfly_images), options)
}

/// Returns completion suggestions for feature packs based on a partial input string.
///
/// Handles comma-separated lists and multiplier prefixes. Range completions are not
/// applicable to feature packs and are never offered.
pub fn suggest_feature_packs(input: &str, feature_packs: &FeaturePackRegistry, options: &DslOptions) -> (r: Vec<
    String,
>)
    ensures
        strings_view(r@) == spec_suggestions(
            input@,
            spec_all_identifiers(feature_packs@),
            None,
            DslOptions { ranges: false, multipliers: options.multipliers },
        ),
{
    let candidates = feature_packs.identifier_chars();
    let pack_options = DslOptions { ranges: false, multipliers: options.multipliers };
    build_suggestions(input, &candidates, None, &pack_options)
}

/// Returns completion suggestions for both WildFly versions and feature packs based on a
/// partial input string.
///
/// Range completions are only offered for WildFly images; `feature_pack_options.ranges` is
/// ignored. Multiplier prefixes are recognized where either options enable them.
pub fn suggest_meta_items(
    input: &str,
    wildfly_images: &WildFlyImageRegistry,
    feature_packs: &FeaturePackRegistry,
    wildfly_image_options: &DslOptions,
    feature_pack_options: &DslOptions,
) -> (r: Vec<String>)
    ensures
        strings_view(r@) == spec_suggestions(
            input@,
            spec_all_meta_items(wildfly_images@, feature_packs@),
            Some(wildfly_images@),
            DslOptions {
                ranges: wildfly_image_options.ranges,
                multipliers: wildfly_image_options.multipliers || feature_pack_options.multipliers,
            },
        ),
{
    let candidates = meta_candidates(wildfly_images, feature_packs);
    let effective = DslOptions {
        ranges: wildfly_image_options.ranges,
        multipliers: wildfly_image_options.multipliers || feature_pack_options.multipliers,
    };
    build_suggestions(input, &candidates, Some(wildfly_images), &effective)
}


/// A version that parses has at least two characters, starts and ends with a character
/// other than `.`, and holds no `..`.
proof fn lemma_parsed_version_chars(start: Seq<char>, imgs: Seq<WildFlyImageView>)
    requires
        spec_parse_image(start, imgs) is Ok,
    ensures
        start.len() >= 2,
        start[0] != '.',
        start[start.len() - 1] != '.',
        forall|j: int| 0 <= j < start.len() - 1 ==> !(#[trigger] start[j] == '.' && start[j + 1] == '.'),
        forall|j: int| 0 <= j < start.len() ==> #[trigger] start[j] != ',' && start[j] != 'x',
{
    reveal_strlit("dev");
    if start == DEVELOPMENT_VERSION@ {
        assert(start =~= seq!['d', 'e', 'v']);
    }
}

/// Without `c` in `s`, `rfind` finds nothing.
proof fn lemma_rfind_absent(s: Seq<char>, c: char)
    requires
        forall|j: int| 0 <= j < s.len() ==> s[j] != c,
    ensures
        rfind(s, c) == -1,
    decreases s.len(),
{
    if s.len() > 0 {
        lemma_rfind_absent(s.drop_last(), c);
    }
}

/// The shell completions of a version followed by `..` are the version, `..` and the short
/// form of every image of the registry whose identifier is above the identifier that
/// version names, in registry order, and nothing else.
pub proof fn lemma_suggest_range_ends_after_start(
    start: Seq<char>,
    candidates: Seq<Seq<char>>,
    imgs: Seq<WildFlyImageView>,
    opts: DslOptions,
)
    requires
        opts.ranges,
        spec_parse_image(start, imgs) is Ok,
    ensures
        spec_suggestions(start + seq!['.', '.'], candidates, Some(imgs), opts) == imgs.filter(
            |i: WildFlyImageView| i.identifier > spec_parse_image(start, imgs)->Ok_0.identifier,
        ).map_values(|i: WildFlyImageView| start + seq!['.', '.'] + simple_version(i.identifier)),
{
    let token = start + seq!['.', '.'];
    lemma_parsed_version_chars(start, imgs);
    lemma_rfind_absent(token, ',');
    assert(spec_prefix_token(token) == (Seq::<char>::empty(), token));
    assert(split_once_char(token, 'x') is None) by {
        if exists|i: int| first_char_at(token, 'x', i) {
            let i = choose|i: int| first_char_at(token, 'x', i);
            assert(token[i] == 'x');
        }
    }
    lemma_range_ends_after_start(start, candidates, imgs, opts);
    let id = spec_parse_image(start, imgs)->Ok_0.identifier;
    let fl = imgs.filter(|i: WildFlyImageView| i.identifier > id);
    let sugg = fl.map_values(|i: WildFlyImageView| simple_version(i.identifier));
    assert(spec_completion_multiplier(token) is None);
    let dots = seq!['.', '.'];
    assert(token != dots) by {
        assert(token.len() != dots.len());
    }
    assert(!starts_with(token, dots)) by {
        assert(token.take(2)[0] == start[0]);
    }
    assert(token.skip(token.len() - 2) =~= dots);
    assert(spec_inner(token, candidates, Some(imgs), opts).0 == token);
    assert(spec_inner(token, candidates, Some(imgs), opts).1 == sugg);
    assert(spec_find(token, candidates, Some(imgs), opts) == (Seq::<char>::empty(), token, sugg));
    assert(spec_suggestions(token, candidates, Some(imgs), opts) =~= fl.map_values(
        |i: WildFlyImageView| start + seq!['.', '.'] + simple_version(i.identifier),
    ));
}

/// The short form of an identifier above `id` is offered exactly where it is above `id`:
/// the test on major and minor version agrees with the order of identifiers.
proof fn lemma_after_is_greater(i: u16, id: u16)
    ensures
        (if i / 10 == id / 10 {
            i % 10 > id % 10
        } else {
            i / 10 > id / 10
        }) <==> i > id,
{
}

/// Completing a range that ends in `..` after a version offers the short form of every image
/// of the registry whose identifier is above the identifier that version names, in registry
/// order, and nothing else.
pub proof fn lemma_range_ends_after_start(
    start: Seq<char>,
    candidates: Seq<Seq<char>>,
    imgs: Seq<WildFlyImageView>,
    opts: DslOptions,
)
    requires
        opts.ranges,
        spec_parse_image(start, imgs) is Ok,
    ensures
        spec_inner(start + seq!['.', '.'], candidates, Some(imgs), opts).1 == imgs.filter(
            |i: WildFlyImageView| i.identifier > spec_parse_image(start, imgs)->Ok_0.identifier,
        ).map_values(|i: WildFlyImageView| simple_version(i.identifier)),
{
    let dots = seq!['.', '.'];
    let token = start + dots;
    lemma_parsed_version_chars(start, imgs);
    let id = spec_parse_image(start, imgs)->Ok_0.identifier;
    assert(token != dots) by {
        assert(token.len() != dots.len());
    }
    assert(!starts_with(token, dots)) by {
        assert(token.take(2)[0] == start[0]);
    }
    assert(token.skip(token.len() - 2) =~= dots);
    assert(token.take(token.len() - 2) =~= start);
    let (major, minor) = ((id / 10) as u16, (id % 10) as u16);
    assert(try_parse_version(start, imgs) == Some((major, minor)));
    let p1 = |i: WildFlyImageView|
        if i.identifier / 10 == major {
            i.identifier % 10 > minor
        } else {
            i.identifier / 10 > major
        };
    let p2 = |i: WildFlyImageView| i.identifier > id;
    assert forall|i: WildFlyImageView| #[trigger] p1(i) == p2(i) by {
        lemma_after_is_greater(i.identifier, id);
    }
    assert(p1 =~= p2);
}

/// The text of a range from `start`, with `after` typed behind its `..`.
pub open spec fn range_text(start: Seq<char>, after: Seq<char>) -> Seq<char> {
    start + seq!['.', '.'] + after
}

/// `c` is what completes `after` to the short form of an image of `imgs` whose identifier is
/// above `id`.
pub open spec fn completes_image_above(c: Seq<char>, after: Seq<char>, imgs: Seq<WildFlyImageView>, id: u16) -> bool {
    exists|j: int|
        0 <= j < imgs.len() && imgs[j].identifier > id && c == strip_prefix_or(
            simple_version(#[trigger] imgs[j].identifier),
            after,
        )
}

/// Where `start` parses and `after` does not end a second `..`, the completions of
/// `start..after` are those of `after` in a range from `start`.
proof fn lemma_range_token(
    start: Seq<char>,
    after: Seq<char>,
    candidates: Seq<Seq<char>>,
    imgs: Seq<WildFlyImageView>,
    opts: DslOptions,
)
    requires
        opts.ranges,
        spec_parse_image(start, imgs) is Ok,
        after.len() > 0,
        !(after.last() == '.' && (after.len() == 1 || after[after.len() - 2] == '.')),
    ensures
        ({
            let id = spec_parse_image(start, imgs)->Ok_0.identifier;
            &&& spec_inner(range_text(start, after), candidates, Some(imgs), opts).0 == range_text(start, after)
            &&& spec_inner(range_text(start, after), candidates, Some(imgs), opts).1 == spec_after_dots(
                after,
                (id / 10) as u16,
                (id % 10) as u16,
                imgs,
            )
            &&& (id / 10) as u16 * 10 + (id % 10) as u16 == id
        }),
{
    let dots = seq!['.', '.'];
    let token = range_text(start, after);
    assert(token == start + dots + after);
    lemma_parsed_version_chars(start, imgs);
    let id = spec_parse_image(start, imgs)->Ok_0.identifier;
    let n = start.len() as int;
    assert(token.len() == n + 2 + after.len());
    assert(token != dots);
    assert(!starts_with(token, dots)) by {
        assert(token.take(2)[0] == start[0]);
    }
    assert(!(token.skip(token.len() - 2) =~= dots)) by {
        assert(token.skip(token.len() - 2)[1] == after.last());
        if after.len() == 1 {
            assert(token.skip(token.len() - 2)[0] == token[n + 1]);
        } else {
            assert(token.skip(token.len() - 2)[0] == after[after.len() - 2]);
        }
    }
    assert(first_dots_at(token, n)) by {
        assert forall|j: int| 0 <= j < n implies !(#[trigger] token[j] == '.' && token[j + 1] == '.') by {
            if j < n - 1 {
                assert(token[j] == start[j] && token[j + 1] == start[j + 1]);
            } else {
                assert(token[j] == start[n - 1]);
            }
        }
    }
    assert(has_dots(token)) by {
        assert(token[n] == '.' && token[n + 1] == '.');
    }
    let i0 = choose|i: int| first_dots_at(token, i);
    assert(i0 == n) by {
        if i0 < n {
            assert(!(token[i0] == '.' && token[i0 + 1] == '.'));
        }
        if i0 > n {
            assert(!(token[n] == '.' && token[n + 1] == '.'));
        }
    }
    assert(token.take(n) =~= start);
    assert(token.skip(n + 2) =~= after);
    assert(split_once_dots(token) == Some((start, after)));
    let (major, minor) = ((id / 10) as u16, (id % 10) as u16);
    assert(try_parse_version(start, imgs) == Some((major, minor)));
    assert(major * 10 + minor == id);
}

/// Every completion of a range `start..after` names an image of the registry whose
/// identifier is above the identifier `start` names, completed from what was typed after
/// `..` (where the input does not end in a second `..`): no completion offers a range that
/// runs backwards.
pub proof fn lemma_range_end_completions_after_start(
    start: Seq<char>,
    after: Seq<char>,
    candidates: Seq<Seq<char>>,
    imgs: Seq<WildFlyImageView>,
    opts: DslOptions,
)
    requires
        opts.ranges,
        spec_parse_image(start, imgs) is Ok,
        after.len() > 0,
        !(after.last() == '.' && (after.len() == 1 || after[after.len() - 2] == '.')),
    ensures
        forall|k: int|
            0 <= k < spec_inner(range_text(start, after), candidates, Some(imgs), opts).1.len()
                ==> completes_image_above(
                #[trigger] spec_inner(range_text(start, after), candidates, Some(imgs), opts).1[k],
                after,
                imgs,
                spec_parse_image(start, imgs)->Ok_0.identifier,
            ),
{
    let id = spec_parse_image(start, imgs)->Ok_0.identifier;
    let (major, minor) = ((id / 10) as u16, (id % 10) as u16);
    lemma_range_token(start, after, candidates, imgs, opts);
    let res = spec_inner(range_text(start, after), candidates, Some(imgs), opts).1;
    assert(res == spec_after_dots(after, major, minor, imgs));
    if spec_parse_image(after, imgs) is Ok {
        assert(res.len() == 0);
    } else {
        let stripped = if after.len() > 0 && after.last() == '.' {
            after.drop_last()
        } else {
            after
        };
        if let Some(number) = spec_parse_u16(stripped) {
            let pred = |i: WildFlyImageView| offered_after_dots(i, after, number, major * 10 + minor);
            let f = |i: WildFlyImageView| strip_prefix_or(simple_version(i.identifier), after);
            let fl = imgs.filter(pred);
            assert(res == fl.map_values(f));
            assert forall|k: int| 0 <= k < res.len() implies completes_image_above(#[trigger] res[k], after, imgs, id) by {
                imgs.lemma_filter_pred(pred, k);
                assert(fl.contains(fl[k]));
                imgs.lemma_filter_contains_rev(pred, fl[k]);
                let j = choose|j: int| 0 <= j < imgs.len() && imgs[j] == fl[k];
                assert(res[k] == f(fl[k]));
                assert(imgs[j].identifier > id);
                assert(res[k] == strip_prefix_or(simple_version(imgs[j].identifier), after));
            }
        } else {
            assert(res.len() == 0);
        }
    }
}

/// Every shell completion of a range `start..after` (with no `,` or `x` typed after the
/// `..`, and not ending in a second `..`) is the input followed by what completes `after` to
/// the short form of an image whose identifier is above the identifier `start` names.
pub proof fn lemma_suggest_range_end_after_start(
    start: Seq<char>,
    after: Seq<char>,
    candidates: Seq<Seq<char>>,
    imgs: Seq<WildFlyImageView>,
    opts: DslOptions,
)
    requires
        opts.ranges,
        spec_parse_image(start, imgs) is Ok,
        after.len() > 0,
        !(after.last() == '.' && (after.len() == 1 || after[after.len() - 2] == '.')),
        forall|j: int| 0 <= j < after.len() ==> #[trigger] after[j] != ',' && after[j] != 'x',
    ensures
        forall|k: int|
            0 <= k < spec_suggestions(range_text(start, after), candidates, Some(imgs), opts).len() ==> {
                let c = #[trigger] spec_suggestions(range_text(start, after), candidates, Some(imgs), opts)[k];
                &&& c.take(range_text(start, after).len() as int) == range_text(start, after)
                &&& completes_image_above(
                    c.skip(range_text(start, after).len() as int),
                    after,
                    imgs,
                    spec_parse_image(start, imgs)->Ok_0.identifier,
                )
            },
{
    let token = range_text(start, after);
    lemma_parsed_version_chars(start, imgs);
    let n = start.len() as int;
    assert forall|j: int| 0 <= j < token.len() implies #[trigger] token[j] != ',' && token[j] != 'x' by {
        if j < n {
            assert(token[j] == start[j]);
        } else if j >= n + 2 {
            assert(token[j] == after[j - n - 2]);
        }
    }
    lemma_rfind_absent(token, ',');
    assert(spec_prefix_token(token) == (Seq::<char>::empty(), token));
    assert(split_once_char(token, 'x') is None) by {
        if exists|i: int| first_char_at(token, 'x', i) {
            let i = choose|i: int| first_char_at(token, 'x', i);
            assert(token[i] == 'x');
        }
    }
    assert(spec_completion_multiplier(token) is None);
    lemma_range_end_completions_after_start(start, after, candidates, imgs, opts);
    let inner = spec_inner(token, candidates, Some(imgs), opts);
    assert(has_dots(token)) by {
        assert(token[n] == '.' && token[n + 1] == '.');
    }
    let dots = seq!['.', '.'];
    assert(token != dots) by {
        assert(token.len() != dots.len());
    }
    assert(!starts_with(token, dots)) by {
        assert(token.take(2)[0] == start[0]);
    }
    assert(!(token.skip(token.len() - 2) =~= dots)) by {
        assert(token.skip(token.len() - 2)[1] == after.last());
        if after.len() == 1 {
            assert(token.skip(token.len() - 2)[0] == token[n + 1]);
        } else {
            assert(token.skip(token.len() - 2)[0] == after[after.len() - 2]);
        }
    }
    assert(inner.0 == token);
    let res = spec_suggestions(token, candidates, Some(imgs), opts);
    assert(res == inner.1.map_values(|x: Seq<char>| Seq::<char>::empty() + token + x));
    assert forall|k: int| 0 <= k < res.len() implies {
        let c = #[trigger] res[k];
        &&& c.take(token.len() as int) == token
        &&& completes_image_above(c.skip(token.len() as int), after, imgs, spec_parse_image(start, imgs)->Ok_0.identifier)
    } by {
        let x = inner.1[k];
        assert(res[k] == Seq::<char>::empty() + token + x);
        assert(res[k].take(token.len() as int) =~= token);
        assert(res[k].skip(token.len() as int) =~= x);
    }
}

/// Completing a range `start..d` with a single digit `d` from `1` to `9` offers, in registry
/// order, every image above the identifier `start` names whose major version has `d` as its
/// tens digit, completed from the typed digit, and nothing else.
pub proof fn lemma_range_end_decade(
    start: Seq<char>,
    d: char,
    candidates: Seq<Seq<char>>,
    imgs: Seq<WildFlyImageView>,
    opts: DslOptions,
)
    requires
        opts.ranges,
        spec_parse_image(start, imgs) is Ok,
        '1' <= d <= '9',
    ensures
        spec_inner(range_text(start, seq![d]), candidates, Some(imgs), opts).1 == imgs.filter(
            |i: WildFlyImageView|
                i.identifier > spec_parse_image(start, imgs)->Ok_0.identifier && i.identifier / 100
                    == digit_value(d),
        ).map_values(|i: WildFlyImageView| strip_prefix_or(simple_version(i.identifier), seq![d])),
{
    let after = seq![d];
    lemma_range_token(start, after, candidates, imgs, opts);
    let id = spec_parse_image(start, imgs)->Ok_0.identifier;
    let (major, minor) = ((id / 10) as u16, (id % 10) as u16);
    reveal_strlit("dev");
    assert(spec_parse_image(after, imgs) is Err) by {
        assert(after.len() != DEVELOPMENT_VERSION@.len());
    }
    assert(after.last() != '.');
    assert(all_digits(after));
    assert(after.drop_last() =~= Seq::<char>::empty());
    assert(digits_value(Seq::<char>::empty()) == 0);
    assert(after.last() == d);
    assert(digits_value(after) == digits_value(after.drop_last()) * 10 + digit_value(after.last()));
    assert(digits_value(after) == digit_value(d));
    let number = digit_value(d) as u16;
    assert(spec_parse_u16(after) == Some(number));
    let p1 = |i: WildFlyImageView| offered_after_dots(i, after, number, major * 10 + minor);
    let p2 = |i: WildFlyImageView| i.identifier > id && i.identifier / 100 == digit_value(d);
    assert forall|i: WildFlyImageView| #[trigger] p1(i) == p2(i) by {}
    assert(p1 =~= p2);
}

} // verus!
