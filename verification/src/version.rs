//! Semantic versions, as the `semver` crate parses and prints them.
use vstd::prelude::*;

use crate::order::{char_order, int_order, is_order, lemma_int_order, lemma_keyed_order, lemma_lex_order, lemma_pair_order, lemma_str_order, lex_order, pair_order, str_order};
use crate::text::{
    all_digits, chars_of, decimal, is_digit, join, push_all, push_decimal, split_chars, split_on, string_of, views,
};

verus! {

/// A semantic version `major.minor.patch[-pre][+build]`.
#[derive(Clone, Debug, PartialEq, Eq, Hash)]
pub struct Version {
    /// Major version number.
    pub major: u64,
    /// Minor version number.
    pub minor: u64,
    /// Patch version number.
    pub patch: u64,
    /// Pre-release identifiers, without the leading `-` (empty when absent).
    pub pre: String,
    /// Build metadata, without the leading `+` (empty when absent).
    pub build: String,
}

/// The mathematical value of a [`Version`].
pub struct VersionView {
    pub major: u64,
    pub minor: u64,
    pub patch: u64,
    pub pre: Seq<char>,
    pub build: Seq<char>,
}

impl View for Version {
    type V = VersionView;

    open spec fn view(&self) -> VersionView {
        VersionView {
            major: self.major,
            minor: self.minor,
            patch: self.patch,
            pre: self.pre@,
            build: self.build@,
        }
    }
}

/// A character allowed in pre-release and build identifiers: `0-9`, `A-Z`, `a-z`, `-`.
pub open spec fn is_identifier_char(c: char) -> bool {
    is_digit(c) || ('A' <= c && c <= 'Z') || ('a' <= c && c <= 'z') || c == '-'
}

/// A dot-separated list of non-empty identifiers made of identifier characters; with
/// `no_leading_zero`, purely numeric identifiers longer than one character do not start
/// with `0`.
pub open spec fn valid_identifiers(s: Seq<char>, no_leading_zero: bool) -> bool {
    forall|i: int|
        0 <= i < split_on(s, '.').len() ==> {
            let part = #[trigger] split_on(s, '.')[i];
            &&& part.len() > 0
            &&& forall|j: int| 0 <= j < part.len() ==> is_identifier_char(#[trigger] part[j])
            &&& no_leading_zero && all_digits(part) && part.len() > 1 ==> part[0] != '0'
        }
}

/// A version the `semver` grammar admits: its pre-release and build parts are empty or
/// well-formed identifier lists.
pub open spec fn version_valid(v: VersionView) -> bool {
    &&& (v.pre.len() == 0 || valid_identifiers(v.pre, true))
    &&& (v.build.len() == 0 || valid_identifiers(v.build, false))
}

/// The text of a version, as `semver::Version` displays it.
pub open spec fn version_text(v: VersionView) -> Seq<char> {
    let core = decimal(v.major as nat) + seq!['.'] + decimal(v.minor as nat) + seq!['.'] + decimal(
        v.patch as nat,
    );
    let with_pre = if v.pre.len() == 0 {
        core
    } else {
        core + seq!['-'] + v.pre
    };
    if v.build.len() == 0 {
        with_pre
    } else {
        with_pre + seq!['+'] + v.build
    }
}

/// The version `semver::Version::parse` reads from a text, or `None` where it fails.
pub uninterp spec fn semver_parsed(s: Seq<char>) -> Option<VersionView>;

/// Parses a version with `semver::Version::parse`.
///
/// Trusted: the parse succeeds exactly on the texts of valid versions (three decimal
/// numbers without leading zeros, then optional pre-release and build identifiers) and
/// gives back the version whose text it read.
#[verifier::external_body]
fn semver_parse(s: &str) -> (r: Option<Version>)
    ensures
        r is Some <==> semver_parsed(s@) is Some,
        r matches Some(v) ==> semver_parsed(s@) == Some(v@),
        match r {
            Some(v) => version_valid(v@) && version_text(v@) == s@,
            None => forall|w: VersionView| version_valid(w) ==> version_text(w) != s@,
        },
{
    match semver::Version::parse(s) {
        Ok(v) => Some(
            Version {
                major: v.major,
                minor: v.minor,
                patch: v.patch,
                pre: v.pre.as_str().to_string(),
                build: v.build.as_str().to_string(),
            },
        ),
        Err(_) => None,
    }
}

impl Version {
    /// A version with empty pre-release and build metadata.
    pub fn new(major: u64, minor: u64, patch: u64) -> (r: Version)
        ensures
            r@ == (VersionView { major, minor, patch, pre: Seq::empty(), build: Seq::empty() }),
    {
        Version { major, minor, patch, pre: String::new(), build: String::new() }
    }

    /// Parses a version from its text; `None` where the text is no valid version.
    pub fn parse(text: &Vec<char>) -> (r: Option<Version>)
        ensures
            r is Some <==> semver_parsed(text@) is Some,
            r matches Some(v) ==> semver_parsed(text@) == Some(v@),
            match r {
                Some(v) => version_valid(v@) && version_text(v@) == text@,
                None => forall|w: VersionView| version_valid(w) ==> version_text(w) != text@,
            },
    {
        let s = string_of(text);
        semver_parse(s.as_str())
    }

    /// A copy of this version.
    pub fn cloned(&self) -> (r: Version)
        ensures
            r@ == self@,
    {
        Version {
            major: self.major,
            minor: self.minor,
            patch: self.patch,
            pre: self.pre.clone(),
            build: self.build.clone(),
        }
    }

    /// The characters of this version's text.
    pub fn text(&self) -> (r: Vec<char>)
        ensures
            r@ == version_text(self@),
    {
        let mut out: Vec<char> = Vec::new();
        push_decimal(&mut out, self.major);
        out.push('.');
        push_decimal(&mut out, self.minor);
        out.push('.');
        push_decimal(&mut out, self.patch);
        let pre = chars_of(self.pre.as_str());
        if pre.len() > 0 {
            out.push('-');
            push_all(&mut out, &pre);
        }
        let build = chars_of(self.build.as_str());
        if build.len() > 0 {
            out.push('+');
            push_all(&mut out, &build);
        }
        assert(out@ =~= version_text(self@));
        out
    }

    /// The text of this version, e.g. `"0.9.0"` or `"1.0.0-rc.1"`.
    pub fn to_string(&self) -> (r: String)
        ensures
            r@ == version_text(self@),
    {
        string_of(&self.text())
    }
}


/// `s` without its leading `'0'` characters.
pub open spec fn trim_zeros(s: Seq<char>) -> Seq<char>
    decreases s.len(),
{
    if s.len() > 0 && s[0] == '0' {
        trim_zeros(s.drop_first())
    } else {
        s
    }
}

/// How two pre-release identifiers compare: numeric ones by length and then digits (their
/// numeric value), numeric below alphanumeric, alphanumeric ones in ASCII order.
pub open spec fn pre_ident_order(a: Seq<char>, b: Seq<char>) -> int {
    if all_digits(a) && all_digits(b) {
        if a.len() != b.len() {
            int_order(a.len() as int, b.len() as int)
        } else {
            str_order(a, b)
        }
    } else if all_digits(a) {
        -1
    } else if all_digits(b) {
        1
    } else {
        str_order(a, b)
    }
}

/// How two build identifiers compare: numeric ones by value (length and digits without
/// leading zeros), then by their full length; numeric below alphanumeric; alphanumeric ones
/// in ASCII order.
pub open spec fn build_ident_order(a: Seq<char>, b: Seq<char>) -> int {
    if all_digits(a) && all_digits(b) {
        let (ta, tb) = (trim_zeros(a), trim_zeros(b));
        if ta.len() != tb.len() {
            int_order(ta.len() as int, tb.len() as int)
        } else if str_order(ta, tb) != 0 {
            str_order(ta, tb)
        } else {
            int_order(a.len() as int, b.len() as int)
        }
    } else if all_digits(a) {
        -1
    } else if all_digits(b) {
        1
    } else {
        str_order(a, b)
    }
}

/// The order of pre-release parts: an empty one (a release) is greatest; others compare
/// their dot-separated identifiers lexicographically.
pub open spec fn pre_order(a: Seq<char>, b: Seq<char>) -> int {
    if a.len() == 0 && b.len() == 0 {
        0
    } else if a.len() == 0 {
        1
    } else if b.len() == 0 {
        -1
    } else {
        lex_order(split_on(a, '.'), split_on(b, '.'), |x: Seq<char>, y: Seq<char>| pre_ident_order(x, y))
    }
}

/// The order of build metadata: dot-separated identifiers compared lexicographically.
pub open spec fn build_order(a: Seq<char>, b: Seq<char>) -> int {
    lex_order(split_on(a, '.'), split_on(b, '.'), |x: Seq<char>, y: Seq<char>| build_ident_order(x, y))
}

/// The total order of `semver::Version`: major, minor, patch, pre-release, then build
/// metadata.
pub open spec fn version_order(a: VersionView, b: VersionView) -> int {
    if a.major != b.major {
        int_order(a.major as int, b.major as int)
    } else if a.minor != b.minor {
        int_order(a.minor as int, b.minor as int)
    } else if a.patch != b.patch {
        int_order(a.patch as int, b.patch as int)
    } else if pre_order(a.pre, b.pre) != 0 {
        pre_order(a.pre, b.pre)
    } else {
        build_order(a.build, b.build)
    }
}

/// `trim_zeros` drops a prefix of `'0'` characters.
proof fn lemma_trim_zeros(s: Seq<char>)
    ensures
        trim_zeros(s) == s.skip(s.len() - trim_zeros(s).len()),
        forall|j: int| 0 <= j < s.len() - trim_zeros(s).len() ==> s[j] == '0',
        trim_zeros(s).len() <= s.len(),
    decreases s.len(),
{
    if s.len() > 0 && s[0] == '0' {
        lemma_trim_zeros(s.drop_first());
        let t = s.drop_first();
        assert(t.skip(t.len() - trim_zeros(t).len()) =~= s.skip(s.len() - trim_zeros(s).len()));
        assert forall|j: int| 0 <= j < s.len() - trim_zeros(s).len() implies s[j] == '0' by {
            if j > 0 {
                assert(s[j] == t[j - 1]);
            }
        }
    } else {
        assert(s.skip(0) =~= s);
    }
}

/// Digit strings equal after trimming their zeros and of equal length are equal.
proof fn lemma_zeros_equal(a: Seq<char>, b: Seq<char>)
    requires
        trim_zeros(a) == trim_zeros(b),
        a.len() == b.len(),
    ensures
        a == b,
{
    lemma_trim_zeros(a);
    lemma_trim_zeros(b);
    let k = a.len() - trim_zeros(a).len();
    assert forall|j: int| 0 <= j < a.len() implies a[j] == b[j] by {
        if j >= k {
            assert(a[j] == a.skip(k)[j - k]);
            assert(b[j] == b.skip(k)[j - k]);
        }
    }
    assert(a =~= b);
}

/// Splitting at a separator and joining with it again gives back the text.
pub proof fn lemma_join_split(s: Seq<char>, c: char)
    ensures
        join(split_on(s, c), seq![c]) == s,
    decreases s.len(),
{
    crate::text::lemma_split_on_nonempty(s, c);
    if s.len() == 0 {
        assert(join(seq![Seq::<char>::empty()], seq![c]) == Seq::<char>::empty());
    } else {
        let p = split_on(s.drop_last(), c);
        lemma_join_split(s.drop_last(), c);
        crate::text::lemma_split_on_nonempty(s.drop_last(), c);
        if s.last() == c {
            let q = p.push(Seq::<char>::empty());
            assert(q.drop_last() =~= p);
            assert(join(q, seq![c]) =~= s);
        } else {
            let q = p.update(p.len() - 1, p.last().push(s.last()));
            if p.len() == 1 {
                assert(join(q, seq![c]) =~= s);
            } else {
                assert(q.drop_last() =~= p.drop_last());
                assert(join(p, seq![c]) == join(p.drop_last(), seq![c]) + seq![c] + p.last());
                assert(q.len() == p.len());
                assert(q.last() == p.last().push(s.last()));
                assert(join(q, seq![c]) == join(q.drop_last(), seq![c]) + seq![c] + q.last());
                assert(s =~= s.drop_last().push(s.last()));
                assert(join(q, seq![c]) =~= s);
            }
        }
    }
}

/// Texts that split into the same pieces are equal.
proof fn lemma_split_injective(a: Seq<char>, b: Seq<char>, c: char)
    requires
        split_on(a, c) == split_on(b, c),
    ensures
        a == b,
{
    lemma_join_split(a, c);
    lemma_join_split(b, c);
}

/// The comparison of pairs of integers and strings.
pub open spec fn int_str_order(p: (int, Seq<char>), q: (int, Seq<char>)) -> int {
    pair_order(p, q, |x: int, y: int| int_order(x, y), |x: Seq<char>, y: Seq<char>| str_order(x, y))
}

/// The comparison of pairs of integers and strings is a total order.
proof fn lemma_int_str_order()
    ensures
        is_order(|p: (int, Seq<char>), q: (int, Seq<char>)| int_str_order(p, q)),
{
    lemma_int_order();
    lemma_str_order();
    lemma_pair_order(|x: int, y: int| int_order(x, y), |x: Seq<char>, y: Seq<char>| str_order(x, y));
    let a = |p: (int, Seq<char>), q: (int, Seq<char>)| int_str_order(p, q);
    let b = |p: (int, Seq<char>), q: (int, Seq<char>)|
        pair_order(p, q, |x: int, y: int| int_order(x, y), |x: Seq<char>, y: Seq<char>| str_order(x, y));
    assert(a =~= b);
}

/// The order of pre-release identifiers is a total order.
pub proof fn lemma_pre_ident_order()
    ensures
        is_order(|a: Seq<char>, b: Seq<char>| pre_ident_order(a, b)),
{
    let isc = |p: (int, Seq<char>), q: (int, Seq<char>)| int_str_order(p, q);
    lemma_int_str_order();
    lemma_int_order();
    lemma_pair_order(|x: int, y: int| int_order(x, y), isc);
    let c = |p: (int, (int, Seq<char>)), q: (int, (int, Seq<char>))|
        pair_order(p, q, |x: int, y: int| int_order(x, y), isc);
    let key = |a: Seq<char>|
        if all_digits(a) {
            (0int, (a.len() as int, a))
        } else {
            (1int, (0int, a))
        };
    lemma_keyed_order(key, c);
    let k = |x: Seq<char>, y: Seq<char>| c(key(x), key(y));
    let d = |x: Seq<char>, y: Seq<char>| pre_ident_order(x, y);
    lemma_str_order();
    assert forall|x: Seq<char>, y: Seq<char>| #[trigger] d(x, y) == k(x, y) by {}
    assert(d =~= k);
}

/// The order of build identifiers is a total order.
pub proof fn lemma_build_ident_order()
    ensures
        is_order(|a: Seq<char>, b: Seq<char>| build_ident_order(a, b)),
{
    let ic = |x: int, y: int| int_order(x, y);
    let sc = |x: Seq<char>, y: Seq<char>| str_order(x, y);
    lemma_int_order();
    lemma_str_order();
    let c2 = |p2: (Seq<char>, int), q2: (Seq<char>, int)| pair_order(p2, q2, sc, ic);
    lemma_pair_order(sc, ic);
    let c1 = |p1: (int, (Seq<char>, int)), q1: (int, (Seq<char>, int))| pair_order(p1, q1, ic, c2);
    lemma_pair_order(ic, c2);
    let c0 = |p: (int, (int, (Seq<char>, int))), q: (int, (int, (Seq<char>, int)))|
        pair_order(p, q, ic, c1);
    lemma_pair_order(ic, c1);
    let key = |a: Seq<char>|
        if all_digits(a) {
            (0int, (trim_zeros(a).len() as int, (trim_zeros(a), a.len() as int)))
        } else {
            (1int, (0int, (a, 0int)))
        };
    assert forall|x: Seq<char>, y: Seq<char>| #[trigger] key(x) == #[trigger] key(y) implies x == y by {
        if all_digits(x) && all_digits(y) {
            lemma_zeros_equal(x, y);
        }
    }
    lemma_keyed_order(key, c0);
    let k = |x: Seq<char>, y: Seq<char>| c0(key(x), key(y));
    let d = |x: Seq<char>, y: Seq<char>| build_ident_order(x, y);
    assert forall|x: Seq<char>, y: Seq<char>| #[trigger] d(x, y) == k(x, y) by {}
    assert(d =~= k);
}

/// The order of pre-release parts is a total order.
pub proof fn lemma_pre_order()
    ensures
        is_order(|a: Seq<char>, b: Seq<char>| pre_order(a, b)),
{
    let pic = |x: Seq<char>, y: Seq<char>| pre_ident_order(x, y);
    lemma_pre_ident_order();
    lemma_lex_order(pic);
    let lc = |a: Seq<Seq<char>>, b: Seq<Seq<char>>| lex_order(a, b, pic);
    let ic = |x: int, y: int| int_order(x, y);
    lemma_int_order();
    lemma_pair_order(ic, lc);
    let c = |p: (int, Seq<Seq<char>>), q: (int, Seq<Seq<char>>)| pair_order(p, q, ic, lc);
    let key = |a: Seq<char>|
        if a.len() == 0 {
            (1int, Seq::<Seq<char>>::empty())
        } else {
            (0int, split_on(a, '.'))
        };
    assert forall|x: Seq<char>, y: Seq<char>| #[trigger] key(x) == #[trigger] key(y) implies x == y by {
        if x.len() > 0 && y.len() > 0 {
            lemma_split_injective(x, y, '.');
        }
    }
    lemma_keyed_order(key, c);
    let k = |x: Seq<char>, y: Seq<char>| c(key(x), key(y));
    let d = |x: Seq<char>, y: Seq<char>| pre_order(x, y);
    assert forall|x: Seq<char>, y: Seq<char>| #[trigger] d(x, y) == k(x, y) by {}
    assert(d =~= k);
}

/// The order of build metadata is a total order.
pub proof fn lemma_build_order()
    ensures
        is_order(|a: Seq<char>, b: Seq<char>| build_order(a, b)),
{
    let bic = |x: Seq<char>, y: Seq<char>| build_ident_order(x, y);
    lemma_build_ident_order();
    lemma_lex_order(bic);
    let lc = |a: Seq<Seq<char>>, b: Seq<Seq<char>>| lex_order(a, b, bic);
    let key = |a: Seq<char>| split_on(a, '.');
    assert forall|x: Seq<char>, y: Seq<char>| #[trigger] key(x) == #[trigger] key(y) implies x == y by {
        lemma_split_injective(x, y, '.');
    }
    lemma_keyed_order(key, lc);
    let k = |x: Seq<char>, y: Seq<char>| lc(key(x), key(y));
    let d = |x: Seq<char>, y: Seq<char>| build_order(x, y);
    assert forall|x: Seq<char>, y: Seq<char>| #[trigger] d(x, y) == k(x, y) by {}
    assert(d =~= k);
}

/// The order of versions is a total order.
pub proof fn lemma_version_order()
    ensures
        is_order(|a: VersionView, b: VersionView| version_order(a, b)),
{
    let ic = |x: int, y: int| int_order(x, y);
    let pc = |x: Seq<char>, y: Seq<char>| pre_order(x, y);
    let bc = |x: Seq<char>, y: Seq<char>| build_order(x, y);
    lemma_int_order();
    lemma_pre_order();
    lemma_build_order();
    let c3 = |p: (Seq<char>, Seq<char>), q: (Seq<char>, Seq<char>)| pair_order(p, q, pc, bc);
    lemma_pair_order(pc, bc);
    let c2 = |p: (int, (Seq<char>, Seq<char>)), q: (int, (Seq<char>, Seq<char>))| pair_order(p, q, ic, c3);
    lemma_pair_order(ic, c3);
    let c1 = |p: (int, (int, (Seq<char>, Seq<char>))), q: (int, (int, (Seq<char>, Seq<char>)))|
        pair_order(p, q, ic, c2);
    lemma_pair_order(ic, c2);
    let c0 = |
        p: (int, (int, (int, (Seq<char>, Seq<char>)))),
        q: (int, (int, (int, (Seq<char>, Seq<char>)))),
    | pair_order(p, q, ic, c1);
    lemma_pair_order(ic, c1);
    let key = |v: VersionView| (v.major as int, (v.minor as int, (v.patch as int, (v.pre, v.build))));
    assert forall|x: VersionView, y: VersionView| #[trigger] key(x) == #[trigger] key(y) implies x == y by {}
    lemma_keyed_order(key, c0);
    let k = |x: VersionView, y: VersionView| c0(key(x), key(y));
    let d = |x: VersionView, y: VersionView| version_order(x, y);
    assert forall|x: VersionView, y: VersionView| #[trigger] d(x, y) == k(x, y) by {}
    assert(d =~= k);
}


/// Compares two character sequences as strings are compared.
pub fn str_compare(a: &Vec<char>, b: &Vec<char>) -> (r: i8)
    ensures
        r == str_order(a@, b@),
{
    let mut i: usize = 0;
    assert(a@.skip(0) =~= a@);
    assert(b@.skip(0) =~= b@);
    while i < a.len() && i < b.len()
        invariant
            i <= a.len(),
            i <= b.len(),
            str_order(a@, b@) == str_order(a@.skip(i as int), b@.skip(i as int)),
        decreases a.len() - i,
    {
        let (x, y) = (a[i], b[i]);
        let ghost (sa, sb) = (a@.skip(i as int), b@.skip(i as int));
        assert(sa[0] == x && sb[0] == y);
        if x < y {
            return -1;
        }
        if y < x {
            return 1;
        }
        assert(sa.drop_first() =~= a@.skip(i + 1));
        assert(sb.drop_first() =~= b@.skip(i + 1));
        i = i + 1;
    }
    if i < a.len() {
        1
    } else if i < b.len() {
        -1
    } else {
        0
    }
}

/// Whether all characters are ASCII digits.
pub fn digits_only(a: &Vec<char>) -> (r: bool)
    ensures
        r == all_digits(a@),
{
    let mut i: usize = 0;
    while i < a.len()
        invariant
            i <= a.len(),
            all_digits(a@.take(i as int)),
        decreases a.len() - i,
    {
        if !('0' <= a[i] && a[i] <= '9') {
            assert(!is_digit(a@[i as int]));
            return false;
        }
        i = i + 1;
        assert forall|j: int| 0 <= j < i implies is_digit(#[trigger] a@.take(i as int)[j]) by {
            if j < i - 1 {
                assert(a@.take(i as int)[j] == a@.take(i - 1)[j]);
            }
        }
    }
    assert(a@.take(i as int) =~= a@);
    true
}

/// The characters of `a` after its leading zeros.
fn without_zeros(a: &Vec<char>) -> (r: Vec<char>)
    ensures
        r@ == trim_zeros(a@),
{
    let mut i: usize = 0;
    assert(a@.skip(0) =~= a@);
    while i < a.len() && a[i] == '0'
        invariant
            i <= a.len(),
            trim_zeros(a@) == trim_zeros(a@.skip(i as int)),
        decreases a.len() - i,
    {
        assert(a@.skip(i as int).drop_first() =~= a@.skip(i + 1));
        i = i + 1;
    }
    crate::text::sub_chars(a, i, a.len())
}

/// Compares two identifiers of a pre-release part (`build == false`) or of build
/// metadata (`build == true`).
fn ident_compare(a: &Vec<char>, b: &Vec<char>, build: bool) -> (r: i8)
    ensures
        r == (if build { build_ident_order(a@, b@) } else { pre_ident_order(a@, b@) }),
{
    let (da, db) = (digits_only(a), digits_only(b));
    if da && db {
        if build {
            let (ta, tb) = (without_zeros(a), without_zeros(b));
            if ta.len() != tb.len() {
                if ta.len() < tb.len() { -1 } else { 1 }
            } else {
                let c = str_compare(&ta, &tb);
                if c != 0 {
                    c
                } else if a.len() < b.len() {
                    -1
                } else if a.len() == b.len() {
                    0
                } else {
                    1
                }
            }
        } else if a.len() != b.len() {
            if a.len() < b.len() { -1 } else { 1 }
        } else {
            str_compare(a, b)
        }
    } else if da {
        -1
    } else if db {
        1
    } else {
        str_compare(a, b)
    }
}

/// Compares two lists of identifiers lexicographically.
fn idents_compare(a: &Vec<Vec<char>>, b: &Vec<Vec<char>>, build: bool) -> (r: i8)
    ensures
        r == (if build {
            lex_order(views(a@), views(b@), |x: Seq<char>, y: Seq<char>| build_ident_order(x, y))
        } else {
            lex_order(views(a@), views(b@), |x: Seq<char>, y: Seq<char>| pre_ident_order(x, y))
        }),
{
    let ghost f = if build {
        |x: Seq<char>, y: Seq<char>| build_ident_order(x, y)
    } else {
        |x: Seq<char>, y: Seq<char>| pre_ident_order(x, y)
    };
    let ghost (va, vb) = (views(a@), views(b@));
    let mut i: usize = 0;
    assert(va.skip(0) =~= va);
    assert(vb.skip(0) =~= vb);
    while i < a.len() && i < b.len()
        invariant
            i <= a.len(),
            i <= b.len(),
            va == views(a@),
            vb == views(b@),
            f == (if build {
                |x: Seq<char>, y: Seq<char>| build_ident_order(x, y)
            } else {
                |x: Seq<char>, y: Seq<char>| pre_ident_order(x, y)
            }),
            lex_order(va, vb, f) == lex_order(va.skip(i as int), vb.skip(i as int), f),
        decreases a.len() - i,
    {
        let c = ident_compare(&a[i], &b[i], build);
        let ghost (sa, sb) = (va.skip(i as int), vb.skip(i as int));
        assert(sa[0] == a@[i as int]@ && sb[0] == b@[i as int]@);
        assert(c == f(sa[0], sb[0]));
        if c != 0 {
            return c;
        }
        assert(sa.drop_first() =~= va.skip(i + 1));
        assert(sb.drop_first() =~= vb.skip(i + 1));
        i = i + 1;
    }
    if i < a.len() {
        1
    } else if i < b.len() {
        -1
    } else {
        0
    }
}

/// Compares two pre-release parts.
fn pre_compare(a: &Vec<char>, b: &Vec<char>) -> (r: i8)
    ensures
        r == pre_order(a@, b@),
{
    if a.len() == 0 && b.len() == 0 {
        0
    } else if a.len() == 0 {
        1
    } else if b.len() == 0 {
        -1
    } else {
        idents_compare(&split_chars(a, '.'), &split_chars(b, '.'), false)
    }
}

/// Compares two build metadata parts.
fn build_compare(a: &Vec<char>, b: &Vec<char>) -> (r: i8)
    ensures
        r == build_order(a@, b@),
{
    idents_compare(&split_chars(a, '.'), &split_chars(b, '.'), true)
}

impl Version {
    /// Compares two versions in `semver` order: `-1`, `0` or `1`.
    pub fn compare(&self, other: &Version) -> (r: i8)
        ensures
            r == version_order(self@, other@),
    {
        if self.major != other.major {
            if self.major < other.major { -1 } else { 1 }
        } else if self.minor != other.minor {
            if self.minor < other.minor { -1 } else { 1 }
        } else if self.patch != other.patch {
            if self.patch < other.patch { -1 } else { 1 }
        } else {
            let p = pre_compare(&chars_of(self.pre.as_str()), &chars_of(other.pre.as_str()));
            if p != 0 {
                p
            } else {
                build_compare(&chars_of(self.build.as_str()), &chars_of(other.build.as_str()))
            }
        }
    }
}

} // verus!
