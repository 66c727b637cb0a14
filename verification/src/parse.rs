//! The version expression language: comma-separated WildFly versions, feature packs,
//! version ranges (`20..25`) and multipliers (`3x34`), as in `"3x10,23..26,5x28,34,dev,ai"`.
use vstd::prelude::*;

use crate::feature_pack::{
    fp_lookup, latest_pack, packs_view, spec_known_shortcuts, spec_known_versions,
    spec_port_offset, FeaturePack, FeaturePackRegistry, FeaturePackView,
};
use crate::meta_item::{item_port_offset, MetaItem, MetaItemView};
use crate::options::DslOptions;
use crate::sort::{is_stable_sort, lemma_short_is_sorted, lemma_stable_sort_concat, lemma_stable_sort_unique, seq_views, stable_sort};
use crate::text::{
    chars_eq, chars_of, decimal, digit_value, find_char, find_dots, first_char_at, has_dots, is_digit, join,
    join_chars, lemma_split_on_concat, parse_u16, push_all, push_decimal, split_chars, split_on, split_once_char,
    split_once_dots, spec_parse_u16, string_of, sub_chars, trim, trimmed, views,
};
use crate::wildfly_image::{
    dev_image, image_with_id, images_view, wildfly_dev, WildFlyImage, WildFlyImageRegistry,
    WildFlyImageView, DEVELOPMENT_VERSION,
};

verus! {

/// `n` copies of `x`.
pub open spec fn repeat<A>(x: A, n: nat) -> Seq<A> {
    Seq::new(n, |i: int| x)
}

/// Each element of `s` repeated `n` times in place.
pub open spec fn repeat_each<A>(s: Seq<A>, n: nat) -> Seq<A>
    decreases s.len(),
{
    if s.len() == 0 {
        Seq::empty()
    } else {
        repeat_each(s.drop_last(), n) + repeat(s.last(), n)
    }
}

/// The value of an `Ok`, if any.
pub open spec fn ok_of<A, E>(r: Result<A, E>) -> Option<A> {
    match r {
        Ok(a) => Some(a),
        Err(_) => None,
    }
}

/// A WildFly version: a two-digit major version, optionally followed by a dot and one
/// digit of minor version (`"34"`, `"26.1"`).
pub open spec fn version_form(s: Seq<char>) -> bool {
    &&& s.len() == 2 || s.len() == 4
    &&& is_digit(s[0]) && is_digit(s[1])
    &&& s.len() == 4 ==> s[2] == '.' && is_digit(s[3])
}

/// The identifier a version in [`version_form`] names.
pub open spec fn version_id(s: Seq<char>) -> int {
    let major = digit_value(s[0]) * 10 + digit_value(s[1]);
    let minor = if s.len() == 2 {
        0
    } else {
        digit_value(s.last())
    };
    (major * 10 + minor) as int
}

/// `"invalid version '<input>'"`.
pub open spec fn invalid_version_msg(input: Seq<char>) -> Seq<char> {
    "invalid version '"@ + input + "'"@
}

/// Parses a single WildFly version: `"dev"`, a two-digit major version or `major.minor`.
pub open spec fn spec_parse_image(input: Seq<char>, imgs: Seq<WildFlyImageView>) -> Result<
    WildFlyImageView,
    Seq<char>,
> {
    if input == DEVELOPMENT_VERSION@ {
        Ok(dev_image())
    } else if !version_form(input) {
        Err(invalid_version_msg(input))
    } else {
        match image_with_id(imgs, version_id(input) as u16) {
            Some(i) => Ok(i),
            None => Err("unknown version "@ + input),
        }
    }
}

/// The multiplier prefix of a segment: `"3x34"` gives `(3, "34")`, a segment without `x`
/// gives `(1, segment)`; `None` where the prefix is no positive `u16` or the rest is empty
/// or holds another `x`.
pub open spec fn spec_extract_multiplier(input: Seq<char>) -> Option<(u16, Seq<char>)> {
    match split_once_char(input, 'x') {
        Some((prefix, suffix)) => if suffix.len() > 0 && !suffix.contains('x') {
            match spec_parse_u16(prefix) {
                Some(m) => if m > 0 {
                    Some((m, suffix))
                } else {
                    None
                },
                None => None,
            }
        } else {
            None
        },
        None => Some((1u16, input)),
    }
}

/// `"<a><b><c>"` as characters.
fn message(a: &str, b: &Vec<char>, c: &str) -> (r: Vec<char>)
    ensures
        r@ == a@ + b@ + c@,
{
    let mut r = chars_of(a);
    push_all(&mut r, b);
    push_all(&mut r, &chars_of(c));
    r
}

/// The characters of an input, copied.
fn copy_chars(s: &Vec<char>) -> (r: Vec<char>)
    ensures
        r@ == s@,
{
    sub_chars(s, 0, s.len())
}

/// Parses a single WildFly version given as characters.
pub fn parse_image_chars(input: &Vec<char>, registry: &WildFlyImageRegistry) -> (r: Result<
    WildFlyImage,
    Vec<char>,
>)
    ensures
        match r {
            Ok(i) => spec_parse_image(input@, registry@) == Ok::<_, Seq<char>>(i@),
            Err(e) => spec_parse_image(input@, registry@) == Err::<WildFlyImageView, _>(e@),
        },
{
    if chars_eq(input, &chars_of(DEVELOPMENT_VERSION)) {
        return Ok(wildfly_dev());
    }
    let n = input.len();
    let ok = (n == 2 || n == 4) && ('0' <= input[0] && input[0] <= '9') && ('0' <= input[1]
        && input[1] <= '9') && (n != 4 || (input[2] == '.' && '0' <= input[3] && input[3] <= '9'));
    if !ok {
        return Err(message("invalid version '", input, "'"));
    }
    let major: u16 = ((input[0] as u32 - '0' as u32) * 10 + (input[1] as u32 - '0' as u32)) as u16;
    let minor: u16 = if n == 2 {
        0
    } else {
        (input[n - 1] as u32 - '0' as u32) as u16
    };
    let id = crate::wildfly_image::identifier(major, minor);
    assert(id == version_id(input@));
    match registry.get(id) {
        Some(img) => Ok(img.cloned()),
        None => {
            let mut m = chars_of("unknown version ");
            push_all(&mut m, input);
            Err(m)
        },
    }
}

/// Splits off the multiplier prefix of a segment.
pub fn multiplier_chars(input: &Vec<char>) -> (r: Option<(u16, Vec<char>)>)
    ensures
        match r {
            Some((m, v)) => spec_extract_multiplier(input@) == Some((m, v@)),
            None => spec_extract_multiplier(input@) is None,
        },
{
    match find_char(input, 'x') {
        None => Some((1, copy_chars(input))),
        Some(i) => {
            assert(first_char_at(input@, 'x', i as int));
            let len = input.len();
            assert(i < len);
            let prefix = sub_chars(input, 0, i);
            let suffix = sub_chars(input, i + 1, input.len());
            assert(prefix@ == input@.take(i as int));
            assert(suffix@ == input@.skip(i + 1));
            if suffix.len() == 0 {
                return None;
            }
            if find_char(&suffix, 'x').is_some() {
                return None;
            }
            match parse_u16(prefix.as_slice()) {
                Some(m) => if m > 0 {
                    Some((m, suffix))
                } else {
                    None
                },
                None => None,
            }
        },
    }
}

/// Splits a multiplier prefix off a segment: `"3x34"` gives `(3, "34")` and a segment
/// without `x` is returned whole with multiplier `1`. `None` where the prefix is no positive
/// `u16`, the rest is empty, or the rest holds another `x`.
pub fn extract_multiplier(input: &str) -> (r: Option<(u16, &str)>)
    ensures
        match r {
            Some((m, rest)) => spec_extract_multiplier(input@) == Some((m, rest@)),
            None => spec_extract_multiplier(input@) is None,
        },
{
    let chars = chars_of(input);
    match multiplier_chars(&chars) {
        None => None,
        Some((m, _)) => match find_char(&chars, 'x') {
            None => Some((m, input)),
            Some(i) => {
                let rest = input.substring_char(i + 1, chars.len());
                assert(rest@ =~= input@.skip(i + 1));
                Some((m, rest))
            },
        },
    }
}

/// Appends the images of `v`.
fn append_images(out: &mut Vec<WildFlyImage>, v: Vec<WildFlyImage>)
    ensures
        images_view(final(out)@) == images_view(old(out)@) + images_view(v@),
{
    let ghost a = out@;
    let ghost b = v@;
    let mut v = v;
    out.append(&mut v);
    assert(out@ == a + b);
    assert(images_view(out@) =~= images_view(a) + images_view(b)) by {
        assert(images_view(out@).len() == out@.len());
        assert forall|k: int| 0 <= k < out@.len() implies #[trigger] images_view(out@)[k] == (images_view(a) + images_view(b))[k] by {
            if k < a.len() {
                assert(out@[k] == a[k]);
            } else {
                assert(out@[k] == b[k - a.len()]);
            }
        }
    }
}

/// Appends `n` copies of `img`.
fn push_copies(out: &mut Vec<WildFlyImage>, img: &WildFlyImage, n: u16)
    ensures
        images_view(final(out)@) == images_view(old(out)@) + repeat(img@, n as nat),
{
    let mut k: u16 = 0;
    while k < n
        invariant
            k <= n,
            images_view(out@) == images_view(old(out)@) + repeat(img@, k as nat),
        decreases n - k,
    {
        let ghost before = out@;
        let c = img.cloned();
        out.push(c);
        proof {
            assert(images_view(before).len() == before.len());
            assert(images_view(out@) =~= images_view(before).push(img@));
        }
        k = k + 1;
        assert(images_view(out@) =~= images_view(old(out)@) + repeat(img@, k as nat));
    }
}


/// Parses a range segment (`"20..25"`, `"30.."`, `"..26"`, with a multiplier prefix where
/// enabled) into the images it selects, each repeated by the multiplier.
pub open spec fn spec_parse_range(range: Seq<char>, imgs: Seq<WildFlyImageView>, opts: DslOptions) -> Result<
    Seq<WildFlyImageView>,
    Seq<char>,
> {
    let mr = if opts.multipliers {
        spec_extract_multiplier(range)
    } else {
        Some((1u16, range))
    };
    match mr {
        None => Err("invalid multiplier in '"@ + range + "'"@),
        Some((m, r)) => match split_once_dots(r) {
            None => Err("invalid range syntax: '"@ + r + "'"@),
            Some((start, end)) => if start == DEVELOPMENT_VERSION@ || end == DEVELOPMENT_VERSION@ {
                Err("'dev' is not allowed in range '"@ + r + "'"@)
            } else {
                let from = if start.len() == 0 {
                    if imgs.len() > 0 {
                        Some(imgs[0])
                    } else {
                        None
                    }
                } else {
                    ok_of(spec_parse_image(start, imgs))
                };
                let to = if end.len() == 0 {
                    if imgs.len() > 0 {
                        Some(imgs.last())
                    } else {
                        None
                    }
                } else {
                    ok_of(spec_parse_image(end, imgs))
                };
                match from {
                    None => Err("invalid range bound: from '"@ + start + "'"@),
                    Some(f) => match to {
                        None => Err("invalid range bound: to '"@ + end + "'"@),
                        Some(t) => if f.identifier == t.identifier {
                            Ok(repeat(f, m as nat))
                        } else if f.identifier < t.identifier {
                            Ok(
                                repeat_each(
                                    imgs.filter(
                                        |i: WildFlyImageView|
                                            f.identifier <= i.identifier <= t.identifier,
                                    ),
                                    m as nat,
                                ),
                            )
                        } else {
                            Err(
                                decimal(f.identifier as nat) + " is greater than "@ + decimal(
                                    t.identifier as nat,
                                ),
                            )
                        },
                    },
                }
            },
        },
    }
}

/// Parses a segment with an optional multiplier prefix into copies of one image.
pub open spec fn spec_parse_image_multiplied(input: Seq<char>, imgs: Seq<WildFlyImageView>) -> Result<
    Seq<WildFlyImageView>,
    Seq<char>,
> {
    match spec_extract_multiplier(input) {
        None => Err("invalid multiplier in '"@ + input + "'"@),
        Some((m, v)) => match spec_parse_image(v, imgs) {
            Err(e) => Err(e),
            Ok(i) => Ok(repeat(i, m as nat)),
        },
    }
}

/// What one non-empty segment of a WildFly version list stands for.
pub open spec fn spec_image_segment(seg: Seq<char>, imgs: Seq<WildFlyImageView>, opts: DslOptions) -> Result<
    Seq<WildFlyImageView>,
    Seq<char>,
> {
    if opts.ranges && has_dots(seg) {
        spec_parse_range(seg, imgs, opts)
    } else if opts.multipliers {
        spec_parse_image_multiplied(seg, imgs)
    } else {
        match spec_parse_image(seg, imgs) {
            Err(e) => Err(e),
            Ok(i) => Ok(seq![i]),
        }
    }
}

/// The items and error messages of the segments, in order: each segment is trimmed, empty
/// ones are skipped, the others are parsed with `f`.
pub open spec fn collect<A>(segs: Seq<Seq<char>>, f: spec_fn(Seq<char>) -> Result<Seq<A>, Seq<char>>) -> (
    Seq<A>,
    Seq<Seq<char>>,
)
    decreases segs.len(),
{
    if segs.len() == 0 {
        (Seq::empty(), Seq::empty())
    } else {
        let (items, errs) = collect(segs.drop_last(), f);
        let seg = trim(segs.last());
        if seg.len() == 0 {
            (items, errs)
        } else {
            match f(seg) {
                Ok(x) => (items + x, errs),
                Err(e) => (items, errs.push(e)),
            }
        }
    }
}

/// The message of a failed list: the single error, or a newline and all errors, one per
/// line.
pub open spec fn errors_text(errs: Seq<Seq<char>>) -> Seq<char> {
    if errs.len() > 1 {
        seq!['\n'] + join(errs, seq!['\n'])
    } else {
        errs[0]
    }
}

/// The message of a failed list.
fn errors_message(errs: &Vec<Vec<char>>) -> (r: Vec<char>)
    requires
        errs@.len() > 0,
    ensures
        r@ == errors_text(views(errs@)),
{
    if errs.len() > 1 {
        let mut r: Vec<char> = Vec::new();
        r.push('\n');
        let mut sep: Vec<char> = Vec::new();
        sep.push('\n');
        push_all(&mut r, &join_chars(errs, &sep));
        assert(sep@ =~= seq!['\n']);
        assert(r@ =~= seq!['\n'] + join(views(errs@), seq!['\n']));
        r
    } else {
        copy_chars(&errs[0])
    }
}

/// Parses a range segment given as characters.
fn parse_range(range: &Vec<char>, registry: &WildFlyImageRegistry, options: &DslOptions) -> (r: Result<
    Vec<WildFlyImage>,
    Vec<char>,
>)
    ensures
        match r {
            Ok(v) => spec_parse_range(range@, registry@, *options) == Ok::<_, Seq<char>>(images_view(v@)),
            Err(e) => spec_parse_range(range@, registry@, *options) == Err::<Seq<WildFlyImageView>, _>(e@),
        },
{
    let (m, r) = if options.multipliers {
        match multiplier_chars(range) {
            Some(x) => x,
            None => return Err(message("invalid multiplier in '", range, "'")),
        }
    } else {
        (1u16, copy_chars(range))
    };
    let (start, end) = match find_dots(&r) {
        None => return Err(message("invalid range syntax: '", &r, "'")),
        Some(i) => {
            assert(crate::text::first_dots_at(r@, i as int));
            let len = r.len();
            assert(i + 2 <= len);
            (sub_chars(&r, 0, i), sub_chars(&r, i + 2, r.len()))
        },
    };
    assert(split_once_dots(r@) == Some((start@, end@)));
    let dev = chars_of(DEVELOPMENT_VERSION);
    if chars_eq(&start, &dev) || chars_eq(&end, &dev) {
        return Err(message("'dev' is not allowed in range '", &r, "'"));
    }
    let from: Option<WildFlyImage> = if start.len() == 0 {
        match registry.first() {
            Some(i) => Some(i.cloned()),
            None => None,
        }
    } else {
        match parse_image_chars(&start, registry) {
            Ok(i) => Some(i),
            Err(_) => None,
        }
    };
    let to: Option<WildFlyImage> = if end.len() == 0 {
        match registry.last() {
            Some(i) => Some(i.cloned()),
            None => None,
        }
    } else {
        match parse_image_chars(&end, registry) {
            Ok(i) => Some(i),
            Err(_) => None,
        }
    };
    let from = match from {
        None => return Err(message("invalid range bound: from '", &start, "'")),
        Some(f) => f,
    };
    let to = match to {
        None => return Err(message("invalid range bound: to '", &end, "'")),
        Some(t) => t,
    };
    if from.identifier == to.identifier {
        let mut out: Vec<WildFlyImage> = Vec::new();
        push_copies(&mut out, &from, m);
        assert(images_view(out@) =~= repeat(from@, m as nat));
        Ok(out)
    } else if from.identifier < to.identifier {
        let selected = registry.range(from.identifier, to.identifier);
        let ghost sel = crate::wildfly_image::image_refs_view(selected@);
        let mut out: Vec<WildFlyImage> = Vec::new();
        let mut i: usize = 0;
        assert(sel.take(0) =~= Seq::<WildFlyImageView>::empty());
        while i < selected.len()
            invariant
                i <= selected@.len(),
                sel == crate::wildfly_image::image_refs_view(selected@),
                images_view(out@) == repeat_each(sel.take(i as int), m as nat),
            decreases selected.len() - i,
        {
            push_copies(&mut out, selected[i], m);
            proof {
                assert(sel.take(i + 1).drop_last() =~= sel.take(i as int));
                assert(sel.take(i + 1).last() == selected@[i as int]@);
            }
            i = i + 1;
        }
        assert(sel.take(i as int) =~= sel);
        Ok(out)
    } else {
        let mut msg: Vec<char> = Vec::new();
        push_decimal(&mut msg, from.identifier as u64);
        push_all(&mut msg, &chars_of(" is greater than "));
        push_decimal(&mut msg, to.identifier as u64);
        assert(msg@ =~= decimal(from.identifier as nat) + " is greater than "@ + decimal(to.identifier as nat));
        Err(msg)
    }
}

/// Parses a segment with an optional multiplier prefix into copies of one image.
fn image_multiplied_chars(input: &Vec<char>, registry: &WildFlyImageRegistry) -> (r: Result<
    Vec<WildFlyImage>,
    Vec<char>,
>)
    ensures
        match r {
            Ok(v) => spec_parse_image_multiplied(input@, registry@) == Ok::<_, Seq<char>>(images_view(v@)),
            Err(e) => spec_parse_image_multiplied(input@, registry@) == Err::<Seq<WildFlyImageView>, _>(e@),
        },
{
    let (m, value) = match multiplier_chars(input) {
        Some(x) => x,
        None => return Err(message("invalid multiplier in '", input, "'")),
    };
    let img = parse_image_chars(&value, registry)?;
    let mut out: Vec<WildFlyImage> = Vec::new();
    push_copies(&mut out, &img, m);
    assert(images_view(out@) =~= repeat(img@, m as nat));
    Ok(out)
}

/// Parses one non-empty segment of a WildFly version list.
fn image_segment_chars(seg: &Vec<char>, registry: &WildFlyImageRegistry, options: &DslOptions) -> (r: Result<
    Vec<WildFlyImage>,
    Vec<char>,
>)
    ensures
        match r {
            Ok(v) => spec_image_segment(seg@, registry@, *options) == Ok::<_, Seq<char>>(images_view(v@)),
            Err(e) => spec_image_segment(seg@, registry@, *options) == Err::<Seq<WildFlyImageView>, _>(e@),
        },
{
    if options.ranges && find_dots(seg).is_some() {
        parse_range(seg, registry, options)
    } else if options.multipliers {
        image_multiplied_chars(seg, registry)
    } else {
        let img = parse_image_chars(seg, registry)?;
        let mut out: Vec<WildFlyImage> = Vec::new();
        out.push(img);
        assert(images_view(out@) =~= seq![img@]);
        Ok(out)
    }
}

/// The images and errors of a WildFly version list, before sorting.
pub open spec fn collect_images(input: Seq<char>, imgs: Seq<WildFlyImageView>, opts: DslOptions) -> (
    Seq<WildFlyImageView>,
    Seq<Seq<char>>,
) {
    collect(split_on(input, ','), |seg: Seq<char>| spec_image_segment(seg, imgs, opts))
}

/// The identifier of an image, the key WildFly version lists are sorted by.
pub open spec fn image_key(i: WildFlyImageView) -> u16 {
    i.identifier
}

/// Parses a comma-separated WildFly version list given as characters.
pub fn images_chars(input: &Vec<char>, registry: &WildFlyImageRegistry, options: &DslOptions) -> (r: Result<
    Vec<WildFlyImage>,
    Vec<char>,
>)
    ensures
        ({
            let (items, errs) = collect_images(input@, registry@, *options);
            match r {
                Ok(v) => errs.len() == 0 && is_stable_sort(images_view(v@), items, |i: WildFlyImageView| image_key(i)),
                Err(e) => errs.len() > 0 && e@ == errors_text(errs),
            }
        }),
{
    let ghost f = |seg: Seq<char>| spec_image_segment(seg, registry@, *options);
    let pieces = split_chars(input, ',');
    let ghost segs = views(pieces@);
    let mut items: Vec<WildFlyImage> = Vec::new();
    let mut errors: Vec<Vec<char>> = Vec::new();
    let mut i: usize = 0;
    assert(segs.take(0) =~= Seq::<Seq<char>>::empty());
    assert(images_view(items@) =~= Seq::<WildFlyImageView>::empty());
    assert(views(errors@) =~= Seq::<Seq<char>>::empty());
    while i < pieces.len()
        invariant
            i <= pieces@.len(),
            segs == views(pieces@),
            segs == split_on(input@, ','),
            f == (|seg: Seq<char>| spec_image_segment(seg, registry@, *options)),
            (images_view(items@), views(errors@)) == collect(segs.take(i as int), f),
        decreases pieces.len() - i,
    {
        let seg = trimmed(&pieces[i]);
        proof {
            assert(segs.take(i + 1).drop_last() =~= segs.take(i as int));
            assert(segs.take(i + 1).last() == pieces@[i as int]@);
        }
        if seg.len() > 0 {
            match image_segment_chars(&seg, registry, options) {
                Ok(v) => {
                    append_images(&mut items, v);
                },
                Err(e) => {
                    let ghost before = views(errors@);
                    errors.push(e);
                    assert(views(errors@) =~= before.push(e@));
                },
            }
        }
        i = i + 1;
    }
    assert(segs.take(i as int) =~= segs);
    if errors.len() == 0 {
        let mut keys: Vec<u16> = Vec::new();
        let mut k: usize = 0;
        while k < items.len()
            invariant
                k <= items@.len(),
                keys@.len() == k,
                forall|j: int| 0 <= j < k ==> keys@[j] == image_key(#[trigger] items@[j]@),
            decreases items.len() - k,
        {
            keys.push(items[k].identifier);
            k = k + 1;
        }
        let ghost iv = images_view(items@);
        let sorted = stable_sort(items, keys, Ghost(|i: WildFlyImageView| image_key(i)));
        assert(seq_views(sorted@) =~= images_view(sorted@));
        Ok(sorted)
    } else {
        Err(errors_message(&errors))
    }
}


/// `"Unknown feature pack '<name>'. Known feature packs: <shortcuts>"`.
pub open spec fn unknown_pack_msg(name: Seq<char>, fps: Seq<FeaturePackView>) -> Seq<char> {
    "Unknown feature pack '"@ + name + "'. Known feature packs: "@ + join(
        spec_known_shortcuts(fps),
        ", "@,
    )
}

/// Parses a feature pack reference: a shortcut for its latest version, or
/// `shortcut:version` for a given version.
pub open spec fn spec_parse_feature_pack(input: Seq<char>, fps: Seq<FeaturePackView>) -> Result<
    FeaturePackView,
    Seq<char>,
> {
    match split_once_char(input, ':') {
        Some((shortcut, version)) => match fp_lookup(fps, shortcut, version) {
            Some(f) => Ok(f),
            None => {
                let versions = spec_known_versions(fps, shortcut);
                if versions.len() == 0 {
                    Err(unknown_pack_msg(shortcut, fps))
                } else {
                    Err(
                        "Unknown version '"@ + version + "' for feature pack '"@ + shortcut
                            + "'. Known versions: "@ + join(versions, ", "@),
                    )
                }
            },
        },
        None => match latest_pack(fps, input) {
            Some(f) => Ok(f),
            None => Err(unknown_pack_msg(input, fps)),
        },
    }
}

/// Parses a segment with an optional multiplier prefix into copies of one feature pack.
pub open spec fn spec_parse_pack_multiplied(input: Seq<char>, fps: Seq<FeaturePackView>) -> Result<
    Seq<FeaturePackView>,
    Seq<char>,
> {
    match spec_extract_multiplier(input) {
        None => Err("invalid multiplier in '"@ + input + "'"@),
        Some((m, v)) => match spec_parse_feature_pack(v, fps) {
            Err(e) => Err(e),
            Ok(f) => Ok(repeat(f, m as nat)),
        },
    }
}

/// What one non-empty segment of a feature pack list stands for; ranges are refused.
pub open spec fn spec_pack_segment(seg: Seq<char>, fps: Seq<FeaturePackView>, opts: DslOptions) -> Result<
    Seq<FeaturePackView>,
    Seq<char>,
> {
    if has_dots(seg) {
        Err("range syntax is not supported for feature packs: '"@ + seg + "'"@)
    } else if opts.multipliers {
        spec_parse_pack_multiplied(seg, fps)
    } else {
        match spec_parse_feature_pack(seg, fps) {
            Err(e) => Err(e),
            Ok(f) => Ok(seq![f]),
        }
    }
}

/// The feature packs and errors of a feature pack list, before sorting.
pub open spec fn collect_packs(input: Seq<char>, fps: Seq<FeaturePackView>, opts: DslOptions) -> (
    Seq<FeaturePackView>,
    Seq<Seq<char>>,
) {
    collect(split_on(input, ','), |seg: Seq<char>| spec_pack_segment(seg, fps, opts))
}

/// The port offset of a feature pack, the key feature pack lists are sorted by.
pub open spec fn pack_key(f: FeaturePackView) -> u16 {
    spec_port_offset(f) as u16
}

/// Every pack of the registry has a port offset that fits in a `u16`.
pub open spec fn offsets_fit(fps: Seq<FeaturePackView>) -> bool {
    forall|i: int| 0 <= i < fps.len() ==> spec_port_offset(#[trigger] fps[i]) <= u16::MAX
}

impl FeaturePackRegistry {
    /// Whether the port offset of every feature pack fits in a `u16`, as parsing them
    /// needs.
    pub fn port_offsets_fit(&self) -> (r: bool)
        ensures
            r == offsets_fit(self@),
    {
        let all = self.all();
        let mut i: usize = 0;
        while i < all.len()
            invariant
                i <= all@.len(),
                crate::feature_pack::pack_refs_view(all@) == self@,
                forall|k: int| 0 <= k < i ==> spec_port_offset(#[trigger] self@[k]) <= u16::MAX,
            decreases all.len() - i,
        {
            let f = all[i];
            assert(f@ == self@[i as int]);
            let offset: u32 = 10000 + f.shortcut_index as u32 * 100 + f.version_index as u32;
            if offset > 65535 {
                return false;
            }
            i = i + 1;
        }
        true
    }
}

/// The port offsets of the feature packs a list selects fit in a `u16`, where the list
/// parses without error into two or more packs (which are then sorted by them).
pub open spec fn selected_packs_fit(input: Seq<char>, fps: Seq<FeaturePackView>, opts: DslOptions) -> bool {
    let (items, errs) = collect_packs(input, fps, opts);
    errs.len() == 0 && items.len() >= 2 ==> forall|j: int| 0 <= j < items.len() ==> spec_port_offset(#[trigger] items[j]) <= u16::MAX
}

/// Parses a single feature pack reference given as characters.
pub fn feature_pack_chars(input: &Vec<char>, registry: &FeaturePackRegistry) -> (r: Result<
    FeaturePack,
    Vec<char>,
>)
    ensures
        match r {
            Ok(f) => spec_parse_feature_pack(input@, registry@) == Ok::<_, Seq<char>>(f@),
            Err(e) => spec_parse_feature_pack(input@, registry@) == Err::<FeaturePackView, _>(e@),
        },
{
    let sep = chars_of(", ");
    match find_char(input, ':') {
        Some(i) => {
            assert(first_char_at(input@, ':', i as int));
            let len = input.len();
            assert(i < len);
            let shortcut = sub_chars(input, 0, i);
            let version = sub_chars(input, i + 1, input.len());
            assert(split_once_char(input@, ':') == Some((shortcut@, version@)));
            match registry.find(&shortcut, &version) {
                Some(f) => Ok(f.cloned()),
                None => {
                    let versions = registry.version_chars(&shortcut);
                    if versions.len() == 0 {
                        let mut m = message("Unknown feature pack '", &shortcut, "'. Known feature packs: ");
                        push_all(&mut m, &join_chars(&registry.shortcut_chars(), &sep));
                        Err(m)
                    } else {
                        let mut m = message("Unknown version '", &version, "' for feature pack '");
                        push_all(&mut m, &shortcut);
                        push_all(&mut m, &chars_of("'. Known versions: "));
                        push_all(&mut m, &join_chars(&versions, &sep));
                        Err(m)
                    }
                },
            }
        },
        None => match registry.find_latest(input) {
            Some(f) => Ok(f.cloned()),
            None => {
                let mut m = message("Unknown feature pack '", input, "'. Known feature packs: ");
                push_all(&mut m, &join_chars(&registry.shortcut_chars(), &sep));
                Err(m)
            },
        },
    }
}

/// Appends `n` copies of `f`.
fn push_pack_copies(out: &mut Vec<FeaturePack>, f: &FeaturePack, n: u16)
    ensures
        packs_view(final(out)@) == packs_view(old(out)@) + repeat(f@, n as nat),
{
    let mut k: u16 = 0;
    while k < n
        invariant
            k <= n,
            packs_view(out@) == packs_view(old(out)@) + repeat(f@, k as nat),
        decreases n - k,
    {
        let ghost before = out@;
        let c = f.cloned();
        out.push(c);
        proof {
            assert(packs_view(before).len() == before.len());
            assert(packs_view(out@) =~= packs_view(before).push(f@));
        }
        k = k + 1;
        assert(packs_view(out@) =~= packs_view(old(out)@) + repeat(f@, k as nat));
    }
}

/// Appends the feature packs of `v`.
fn append_packs(out: &mut Vec<FeaturePack>, v: Vec<FeaturePack>)
    ensures
        packs_view(final(out)@) == packs_view(old(out)@) + packs_view(v@),
{
    let ghost a = out@;
    let ghost b = v@;
    let mut v = v;
    out.append(&mut v);
    assert(out@ == a + b);
    assert(packs_view(out@) =~= packs_view(a) + packs_view(b)) by {
        assert(packs_view(out@).len() == out@.len());
        assert forall|k: int| 0 <= k < out@.len() implies #[trigger] packs_view(out@)[k] == (packs_view(a) + packs_view(b))[k] by {
            if k < a.len() {
                assert(out@[k] == a[k]);
            } else {
                assert(out@[k] == b[k - a.len()]);
            }
        }
    }
}

/// Parses one non-empty segment of a feature pack list.
fn pack_segment_chars(seg: &Vec<char>, registry: &FeaturePackRegistry, options: &DslOptions) -> (r: Result<
    Vec<FeaturePack>,
    Vec<char>,
>)
    ensures
        match r {
            Ok(v) => spec_pack_segment(seg@, registry@, *options) == Ok::<_, Seq<char>>(packs_view(v@)),
            Err(e) => spec_pack_segment(seg@, registry@, *options) == Err::<Seq<FeaturePackView>, _>(e@),
        },
{
    if find_dots(seg).is_some() {
        return Err(message("range syntax is not supported for feature packs: '", seg, "'"));
    }
    if options.multipliers {
        let (m, value) = match multiplier_chars(seg) {
            Some(x) => x,
            None => return Err(message("invalid multiplier in '", seg, "'")),
        };
        let f = feature_pack_chars(&value, registry)?;
        let mut out: Vec<FeaturePack> = Vec::new();
        push_pack_copies(&mut out, &f, m);
        assert(packs_view(out@) =~= repeat(f@, m as nat));
        Ok(out)
    } else {
        let f = feature_pack_chars(seg, registry)?;
        let mut out: Vec<FeaturePack> = Vec::new();
        out.push(f);
        assert(packs_view(out@) =~= seq![f@]);
        Ok(out)
    }
}

/// The feature packs and errors of the segments of a list, before sorting.
fn gather_packs(input: &Vec<char>, registry: &FeaturePackRegistry, options: &DslOptions) -> (r: (
    Vec<FeaturePack>,
    Vec<Vec<char>>,
))
    ensures
        (packs_view(r.0@), views(r.1@)) == collect_packs(input@, registry@, *options),
{
    let ghost f = |seg: Seq<char>| spec_pack_segment(seg, registry@, *options);
    let pieces = split_chars(input, ',');
    let ghost segs = views(pieces@);
    let mut items: Vec<FeaturePack> = Vec::new();
    let mut errors: Vec<Vec<char>> = Vec::new();
    let mut i: usize = 0;
    assert(segs.take(0) =~= Seq::<Seq<char>>::empty());
    assert(packs_view(items@) =~= Seq::<FeaturePackView>::empty());
    assert(views(errors@) =~= Seq::<Seq<char>>::empty());
    while i < pieces.len()
        invariant
            i <= pieces@.len(),
            segs == views(pieces@),
            segs == split_on(input@, ','),
            f == (|seg: Seq<char>| spec_pack_segment(seg, registry@, *options)),
            (packs_view(items@), views(errors@)) == collect(segs.take(i as int), f),
        decreases pieces.len() - i,
    {
        let seg = trimmed(&pieces[i]);
        proof {
            assert(segs.take(i + 1).drop_last() =~= segs.take(i as int));
            assert(segs.take(i + 1).last() == pieces@[i as int]@);
        }
        if seg.len() > 0 {
            match pack_segment_chars(&seg, registry, options) {
                Ok(v) => {
                    let ghost vv = packs_view(v@);
                    let ghost before = items@;
                    append_packs(&mut items, v);
                    proof {
                        assert(packs_view(items@) == packs_view(before) + vv);
                    }
                },
                Err(e) => {
                    let ghost before = views(errors@);
                    errors.push(e);
                    assert(views(errors@) =~= before.push(e@));
                },
            }
        }
        i = i + 1;
    }
    assert(segs.take(i as int) =~= segs);
    (items, errors)
}

/// Sorts the gathered feature packs by port offset, or joins the errors.
fn finish_packs(items: Vec<FeaturePack>, errors: Vec<Vec<char>>) -> (r: Result<Vec<FeaturePack>, Vec<char>>)
    requires
        views(errors@).len() == 0 && items@.len() >= 2 ==> forall|j: int|
            0 <= j < items@.len() ==> spec_port_offset(#[trigger] items@[j]@) <= u16::MAX,
    ensures
        match r {
            Ok(v) => views(errors@).len() == 0 && is_stable_sort(
                packs_view(v@),
                packs_view(items@),
                |f: FeaturePackView| pack_key(f),
            ),
            Err(e) => views(errors@).len() > 0 && e@ == errors_text(views(errors@)),
        },
{
    if errors.len() == 0 && items.len() < 2 {
        proof {
            assert(views(errors@).len() == 0);
            lemma_short_is_sorted(packs_view(items@), |f: FeaturePackView| pack_key(f));
        }
        Ok(items)
    } else if errors.len() == 0 {
        assert(views(errors@).len() == 0);
        let mut keys: Vec<u16> = Vec::new();
        let mut k: usize = 0;
        while k < items.len()
            invariant
                k <= items@.len(),
                keys@.len() == k,
                forall|j: int| 0 <= j < items@.len() ==> spec_port_offset(#[trigger] items@[j]@) <= u16::MAX,
                forall|j: int| 0 <= j < k ==> keys@[j] == pack_key(#[trigger] items@[j]@),
            decreases items.len() - k,
        {
            keys.push(items[k].port_offset());
            k = k + 1;
        }
        let ghost before = packs_view(items@);
        assert(seq_views(items@) =~= before);
        let sorted = stable_sort(items, keys, Ghost(|f: FeaturePackView| pack_key(f)));
        assert(seq_views(sorted@) =~= packs_view(sorted@));
        Ok(sorted)
    } else {
        Err(errors_message(&errors))
    }
}

/// Whether the port offsets of the given feature packs fit in a `u16`.
fn pack_offsets_fit(items: &Vec<FeaturePack>) -> (r: bool)
    ensures
        r == forall|j: int| 0 <= j < items@.len() ==> spec_port_offset(#[trigger] items@[j]@) <= u16::MAX,
{
    let mut k: usize = 0;
    while k < items.len()
        invariant
            k <= items@.len(),
            forall|j: int| 0 <= j < k ==> spec_port_offset(#[trigger] items@[j]@) <= u16::MAX,
        decreases items.len() - k,
    {
        let f = &items[k];
        let offset: u32 = 10000 + f.shortcut_index as u32 * 100 + f.version_index as u32;
        assert(offset == spec_port_offset(items@[k as int]@));
        if offset > 65535 {
            return false;
        }
        k = k + 1;
    }
    true
}

/// Parses a comma-separated feature pack list given as characters.
pub fn packs_chars(input: &Vec<char>, registry: &FeaturePackRegistry, options: &DslOptions) -> (r: Result<
    Vec<FeaturePack>,
    Vec<char>,
>)
    requires
        selected_packs_fit(input@, registry@, *options),
    ensures
        ({
            let (items, errs) = collect_packs(input@, registry@, *options);
            match r {
                Ok(v) => errs.len() == 0 && is_stable_sort(packs_view(v@), items, |f: FeaturePackView| pack_key(f)),
                Err(e) => errs.len() > 0 && e@ == errors_text(errs),
            }
        }),
{
    let (items, errors) = gather_packs(input, registry, options);
    let ghost chosen = collect_packs(input@, registry@, *options);
    proof {
        if views(errors@).len() == 0 && items@.len() >= 2 {
            assert forall|j: int| 0 <= j < items@.len() implies spec_port_offset(#[trigger] items@[j]@) <= u16::MAX by {
                assert(packs_view(items@)[j] == items@[j]@);
                assert(spec_port_offset(chosen.0[j]) <= u16::MAX);
            }
        }
    }
    finish_packs(items, errors)
}

/// A feature pack a reference parses to is one of the registry.
proof fn lemma_feature_pack_in_registry(input: Seq<char>, fps: Seq<FeaturePackView>)
    ensures
        spec_parse_feature_pack(input, fps) matches Ok(f) ==> fps.contains(f),
{
    match split_once_char(input, ':') {
        Some((shortcut, version)) => match semver_parsed_of(version) {
            None => {},
            Some(v) => {
                if crate::feature_pack::has_key(fps, (shortcut, v)) {
                    let i = choose|i: int| 0 <= i < fps.len() && crate::feature_pack::fp_key(fps[i]) == (shortcut, v);
                    assert(fps.contains(fps[i]));
                }
            },
        },
        None => {
            if exists|i: int| crate::feature_pack::is_latest_at(fps, input, i) {
                let i = choose|i: int| crate::feature_pack::is_latest_at(fps, input, i);
                assert(fps.contains(fps[i]));
            }
        },
    }
}

/// The version a text parses to, as the feature pack lookup reads it.
pub open spec fn semver_parsed_of(version: Seq<char>) -> Option<crate::version::VersionView> {
    crate::version::semver_parsed(version)
}

/// The views of a list of items.
pub open spec fn items_view(v: Seq<MetaItem>) -> Seq<MetaItemView> {
    v.map_values(|m: MetaItem| m@)
}

/// Parses a single input as a feature pack reference or, failing that, as a WildFly
/// version.
pub open spec fn spec_parse_meta_item(
    input: Seq<char>,
    imgs: Seq<WildFlyImageView>,
    fps: Seq<FeaturePackView>,
) -> Result<MetaItemView, Seq<char>> {
    match spec_parse_feature_pack(input, fps) {
        Ok(f) => Ok(MetaItemView::FeaturePack(f)),
        Err(_) => match spec_parse_image(input, imgs) {
            Ok(i) => Ok(MetaItemView::Image(i)),
            Err(e) => Err(e),
        },
    }
}

/// Parses a segment with an optional multiplier prefix into copies of one item; a
/// multiplier above one needs the multiplier option of the item's kind.
pub open spec fn spec_parse_item_multiplied(
    input: Seq<char>,
    imgs: Seq<WildFlyImageView>,
    fps: Seq<FeaturePackView>,
    image_opts: DslOptions,
    pack_opts: DslOptions,
) -> Result<Seq<MetaItemView>, Seq<char>> {
    match spec_extract_multiplier(input) {
        None => Err("invalid multiplier in '"@ + input + "'"@),
        Some((m, v)) => match spec_parse_feature_pack(v, fps) {
            Ok(f) => if m > 1 && !pack_opts.multipliers {
                Err("invalid feature pack reference '"@ + input + "'"@)
            } else {
                Ok(repeat(MetaItemView::FeaturePack(f), m as nat))
            },
            Err(_) => match spec_parse_image(v, imgs) {
                Ok(i) => if m > 1 && !image_opts.multipliers {
                    Err(invalid_version_msg(input))
                } else {
                    Ok(repeat(MetaItemView::Image(i), m as nat))
                },
                Err(_) => Err("invalid version or feature pack '"@ + v + "'"@),
            },
        },
    }
}

/// What one non-empty segment of a mixed list stands for: a range of images where image
/// ranges are enabled and the segment holds `..`, else a possibly multiplied item.
pub open spec fn spec_item_segment(
    seg: Seq<char>,
    imgs: Seq<WildFlyImageView>,
    fps: Seq<FeaturePackView>,
    image_opts: DslOptions,
    pack_opts: DslOptions,
) -> Result<Seq<MetaItemView>, Seq<char>> {
    if image_opts.ranges && has_dots(seg) {
        match spec_parse_range(seg, imgs, image_opts) {
            Ok(v) => Ok(v.map_values(|i: WildFlyImageView| MetaItemView::Image(i))),
            Err(e) => Err(e),
        }
    } else {
        spec_parse_item_multiplied(seg, imgs, fps, image_opts, pack_opts)
    }
}

/// The items and errors of a mixed list, before sorting.
pub open spec fn collect_items(
    input: Seq<char>,
    imgs: Seq<WildFlyImageView>,
    fps: Seq<FeaturePackView>,
    image_opts: DslOptions,
    pack_opts: DslOptions,
) -> (Seq<MetaItemView>, Seq<Seq<char>>) {
    collect(
        split_on(input, ','),
        |seg: Seq<char>| spec_item_segment(seg, imgs, fps, image_opts, pack_opts),
    )
}

/// The port offset of an item, the key mixed lists are sorted by.
pub open spec fn item_key(m: MetaItemView) -> u16 {
    item_port_offset(m) as u16
}

/// Mixed lists are ordered by `item_key`.
pub open spec fn item_order() -> spec_fn(MetaItemView) -> u16 {
    |m: MetaItemView| item_key(m)
}

/// The port offsets of the items a mixed list selects fit in a `u16`, where the list parses
/// without error into two or more items (which are then sorted by them).
pub open spec fn selected_items_fit(
    input: Seq<char>,
    imgs: Seq<WildFlyImageView>,
    fps: Seq<FeaturePackView>,
    image_opts: DslOptions,
    pack_opts: DslOptions,
) -> bool {
    let (items, errs) = collect_items(input, imgs, fps, image_opts, pack_opts);
    errs.len() == 0 && items.len() >= 2 ==> forall|j: int| 0 <= j < items.len() ==> item_port_offset(#[trigger] items[j]) <= u16::MAX
}

/// Parses a single item given as characters.
pub fn meta_item_chars(
    input: &Vec<char>,
    images: &WildFlyImageRegistry,
    packs: &FeaturePackRegistry,
) -> (r: Result<MetaItem, Vec<char>>)
    ensures
        match r {
            Ok(m) => spec_parse_meta_item(input@, images@, packs@) == Ok::<_, Seq<char>>(m@),
            Err(e) => spec_parse_meta_item(input@, images@, packs@) == Err::<MetaItemView, _>(e@),
        },
{
    match feature_pack_chars(input, packs) {
        Ok(f) => Ok(MetaItem::FeaturePack(f)),
        Err(_) => match parse_image_chars(input, images) {
            Ok(i) => Ok(MetaItem::Image(i)),
            Err(e) => Err(e),
        },
    }
}

/// Appends `n` copies of `m`.
fn push_item_copies(out: &mut Vec<MetaItem>, m: &MetaItem, n: u16)
    ensures
        items_view(final(out)@) == items_view(old(out)@) + repeat(m@, n as nat),
{
    let mut k: u16 = 0;
    while k < n
        invariant
            k <= n,
            items_view(out@) == items_view(old(out)@) + repeat(m@, k as nat),
        decreases n - k,
    {
        let ghost before = out@;
        let c = m.cloned();
        out.push(c);
        proof {
            assert(items_view(before).len() == before.len());
            assert(items_view(out@) =~= items_view(before).push(m@));
        }
        k = k + 1;
        assert(items_view(out@) =~= items_view(old(out)@) + repeat(m@, k as nat));
    }
}

/// Appends the items of `v`.
fn append_items(out: &mut Vec<MetaItem>, v: Vec<MetaItem>)
    ensures
        items_view(final(out)@) == items_view(old(out)@) + items_view(v@),
{
    let ghost a = out@;
    let ghost b = v@;
    let mut v = v;
    out.append(&mut v);
    assert(out@ == a + b);
    assert(items_view(out@) =~= items_view(a) + items_view(b)) by {
        assert(items_view(out@).len() == out@.len());
        assert forall|k: int| 0 <= k < out@.len() implies #[trigger] items_view(out@)[k] == (items_view(a) + items_view(b))[k] by {
            if k < a.len() {
                assert(out@[k] == a[k]);
            } else {
                assert(out@[k] == b[k - a.len()]);
            }
        }
    }
}

/// Parses one non-empty segment of a mixed list.
fn item_segment_chars(
    seg: &Vec<char>,
    images: &WildFlyImageRegistry,
    packs: &FeaturePackRegistry,
    image_options: &DslOptions,
    pack_options: &DslOptions,
) -> (r: Result<Vec<MetaItem>, Vec<char>>)
    ensures
        match r {
            Ok(v) => spec_item_segment(seg@, images@, packs@, *image_options, *pack_options) == Ok::<_, Seq<char>>(items_view(v@)),
            Err(e) => spec_item_segment(seg@, images@, packs@, *image_options, *pack_options) == Err::<Seq<MetaItemView>, _>(e@),
        },
{
    if image_options.ranges && find_dots(seg).is_some() {
        let imgs = parse_range(seg, images, image_options)?;
        let ghost iv = images_view(imgs@);
        let mut out: Vec<MetaItem> = Vec::new();
        let mut i: usize = 0;
        let mut imgs = imgs;
        let total = imgs.len();
        while imgs.len() > 0
            invariant
                i + imgs@.len() == total,
                total == iv.len(),
                images_view(imgs@) == iv.skip(i as int),
                items_view(out@) == iv.take(i as int).map_values(|x: WildFlyImageView| MetaItemView::Image(x)),
            decreases imgs@.len(),
        {
            let ghost before_imgs = imgs@;
            let img = imgs.remove(0);
            proof {
                assert(img@ == images_view(before_imgs)[0]);
                assert(imgs@ =~= before_imgs.skip(1));
                assert(images_view(imgs@) =~= images_view(before_imgs).skip(1));
                assert(iv.take(i + 1) =~= iv.take(i as int).push(img@));
            }
            let ghost before = out@;
            out.push(MetaItem::Image(img));
            proof {
                assert(items_view(before).len() == before.len());
                assert(items_view(out@) =~= items_view(before).push(MetaItemView::Image(img@)));
                assert(iv.take(i + 1).map_values(|x: WildFlyImageView| MetaItemView::Image(x)) =~= iv.take(i as int).map_values(|x: WildFlyImageView| MetaItemView::Image(x)).push(MetaItemView::Image(img@)));
            }
            i = i + 1;
        }
        assert(iv.take(i as int) =~= iv);
        return Ok(out);
    }
    let (m, value) = match multiplier_chars(seg) {
        Some(x) => x,
        None => return Err(message("invalid multiplier in '", seg, "'")),
    };
    match feature_pack_chars(&value, packs) {
        Ok(f) => {
            if m > 1 && !pack_options.multipliers {
                return Err(message("invalid feature pack reference '", seg, "'"));
            }
            let mut out: Vec<MetaItem> = Vec::new();
            push_item_copies(&mut out, &MetaItem::FeaturePack(f), m);
            assert(items_view(out@) =~= repeat(MetaItemView::FeaturePack(f@), m as nat));
            Ok(out)
        },
        Err(_) => match parse_image_chars(&value, images) {
            Ok(img) => {
                if m > 1 && !image_options.multipliers {
                    return Err(message("invalid version '", seg, "'"));
                }
                let mut out: Vec<MetaItem> = Vec::new();
                push_item_copies(&mut out, &MetaItem::Image(img), m);
                assert(items_view(out@) =~= repeat(MetaItemView::Image(img@), m as nat));
                Ok(out)
            },
            Err(_) => Err(message("invalid version or feature pack '", &value, "'")),
        },
    }
}

/// The items and errors of the segments of a mixed list, before sorting.
fn gather_items(
    input: &Vec<char>,
    images: &WildFlyImageRegistry,
    packs: &FeaturePackRegistry,
    image_options: &DslOptions,
    pack_options: &DslOptions,
) -> (r: (Vec<MetaItem>, Vec<Vec<char>>))
    ensures
        (items_view(r.0@), views(r.1@)) == collect_items(input@, images@, packs@, *image_options, *pack_options),
{
    let ghost f = |seg: Seq<char>| spec_item_segment(seg, images@, packs@, *image_options, *pack_options);
    let pieces = split_chars(input, ',');
    let ghost segs = views(pieces@);
    let mut items: Vec<MetaItem> = Vec::new();
    let mut errors: Vec<Vec<char>> = Vec::new();
    let mut i: usize = 0;
    assert(segs.take(0) =~= Seq::<Seq<char>>::empty());
    assert(items_view(items@) =~= Seq::<MetaItemView>::empty());
    assert(views(errors@) =~= Seq::<Seq<char>>::empty());
    while i < pieces.len()
        invariant
            i <= pieces@.len(),
            segs == views(pieces@),
            segs == split_on(input@, ','),
            f == (|seg: Seq<char>| spec_item_segment(seg, images@, packs@, *image_options, *pack_options)),
            (items_view(items@), views(errors@)) == collect(segs.take(i as int), f),
        decreases pieces.len() - i,
    {
        let seg = trimmed(&pieces[i]);
        proof {
            assert(segs.take(i + 1).drop_last() =~= segs.take(i as int));
            assert(segs.take(i + 1).last() == pieces@[i as int]@);
        }
        if seg.len() > 0 {
            match item_segment_chars(&seg, images, packs, image_options, pack_options) {
                Ok(v) => {
                    let ghost vv = items_view(v@);
                    let ghost before = items@;
                    append_items(&mut items, v);
                    proof {
                        assert(items_view(items@) == items_view(before) + vv);
                    }
                },
                Err(e) => {
                    let ghost before = views(errors@);
                    errors.push(e);
                    assert(views(errors@) =~= before.push(e@));
                },
            }
        }
        i = i + 1;
    }
    assert(segs.take(i as int) =~= segs);
    (items, errors)
}

/// Sorts the gathered items by port offset, or joins the errors.
fn finish_items(items: Vec<MetaItem>, errors: Vec<Vec<char>>) -> (r: Result<Vec<MetaItem>, Vec<char>>)
    requires
        views(errors@).len() == 0 && items@.len() >= 2 ==> forall|j: int|
            0 <= j < items@.len() ==> item_port_offset(#[trigger] items@[j]@) <= u16::MAX,
    ensures
        match r {
            Ok(v) => views(errors@).len() == 0 && is_stable_sort(
                items_view(v@),
                items_view(items@),
                item_order(),
            ),
            Err(e) => views(errors@).len() > 0 && e@ == errors_text(views(errors@)),
        },
{
    if errors.len() == 0 && items.len() < 2 {
        proof {
            assert(views(errors@).len() == 0);
            lemma_short_is_sorted(items_view(items@), item_order());
        }
        Ok(items)
    } else if errors.len() == 0 {
        assert(views(errors@).len() == 0);
        let mut keys: Vec<u16> = Vec::new();
        let mut k: usize = 0;
        while k < items.len()
            invariant
                k <= items@.len(),
                keys@.len() == k,
                forall|j: int| 0 <= j < items@.len() ==> item_port_offset(#[trigger] items@[j]@) <= u16::MAX,
                forall|j: int| 0 <= j < k ==> keys@[j] == item_key(#[trigger] items@[j]@),
            decreases items.len() - k,
        {
            keys.push(items[k].port_offset());
            k = k + 1;
        }
        let ghost before = items_view(items@);
        assert(seq_views(items@) =~= before);
        let sorted = stable_sort(items, keys, Ghost(item_order()));
        assert(seq_views(sorted@) =~= items_view(sorted@));
        Ok(sorted)
    } else {
        Err(errors_message(&errors))
    }
}

/// Whether the port offsets of the given items fit in a `u16`.
fn item_offsets_fit(items: &Vec<MetaItem>) -> (r: bool)
    ensures
        r == forall|j: int| 0 <= j < items@.len() ==> item_port_offset(#[trigger] items@[j]@) <= u16::MAX,
{
    let mut k: usize = 0;
    while k < items.len()
        invariant
            k <= items@.len(),
            forall|j: int| 0 <= j < k ==> item_port_offset(#[trigger] items@[j]@) <= u16::MAX,
        decreases items.len() - k,
    {
        match &items[k] {
            MetaItem::FeaturePack(f) => {
                let offset: u32 = 10000 + f.shortcut_index as u32 * 100 + f.version_index as u32;
                assert(offset == item_port_offset(items@[k as int]@));
                if offset > 65535 {
                    return false;
                }
            },
            MetaItem::Image(_) => {},
        }
        k = k + 1;
    }
    true
}

/// Parses a comma-separated mixed list given as characters.
pub fn items_chars(
    input: &Vec<char>,
    images: &WildFlyImageRegistry,
    packs: &FeaturePackRegistry,
    image_options: &DslOptions,
    pack_options: &DslOptions,
) -> (r: Result<Vec<MetaItem>, Vec<char>>)
    requires
        selected_items_fit(input@, images@, packs@, *image_options, *pack_options),
    ensures
        ({
            let (items, errs) = collect_items(input@, images@, packs@, *image_options, *pack_options);
            match r {
                Ok(v) => errs.len() == 0 && is_stable_sort(items_view(v@), items, item_order()),
                Err(e) => errs.len() > 0 && e@ == errors_text(errs),
            }
        }),
{
    let (items, errors) = gather_items(input, images, packs, image_options, pack_options);
    let ghost chosen = collect_items(input@, images@, packs@, *image_options, *pack_options);
    proof {
        if views(errors@).len() == 0 && items@.len() >= 2 {
            assert forall|j: int| 0 <= j < items@.len() implies item_port_offset(#[trigger] items@[j]@) <= u16::MAX by {
                assert(items_view(items@)[j] == items@[j]@);
                assert(item_port_offset(chosen.0[j]) <= u16::MAX);
            }
        }
    }
    finish_items(items, errors)
}


/// Parses a single version string into a [`WildFlyImage`].
///
/// Accepts `"dev"` for the development build, a two-digit major version (e.g. `"34"`),
/// or a `major.minor` form (e.g. `"26.1"`).
pub fn parse_wildfly_image(input: &str, registry: &WildFlyImageRegistry) -> (r: Result<WildFlyImage, String>)
    ensures
        match r {
            Ok(i) => spec_parse_image(input@, registry@) == Ok::<_, Seq<char>>(i@),
            Err(e) => spec_parse_image(input@, registry@) == Err::<WildFlyImageView, _>(e@),
        },
{
    match parse_image_chars(&chars_of(input), registry) {
        Ok(i) => Ok(i),
        Err(e) => Err(string_of(&e)),
    }
}

/// Parses a comma-separated list of WildFly version expressions into a list of
/// [`WildFlyImage`]s sorted by identifier.
///
/// Supports ranges (`20..25`) and multipliers (`3x34`) where the options enable them, and
/// the development build (`dev`). Feature pack references are rejected.
pub fn parse_wildfly_images(input: &str, registry: &WildFlyImageRegistry, options: &DslOptions) -> (r: Result<
    Vec<WildFlyImage>,
    String,
>)
    ensures
        ({
            let (items, errs) = collect_images(input@, registry@, *options);
            match r {
                Ok(v) => errs.len() == 0 && is_stable_sort(images_view(v@), items, |i: WildFlyImageView| image_key(i)),
                Err(e) => errs.len() > 0 && e@ == errors_text(errs),
            }
        }),
{
    match images_chars(&chars_of(input), registry, options) {
        Ok(v) => Ok(v),
        Err(e) => Err(string_of(&e)),
    }
}

/// Parses a feature pack reference into a [`FeaturePack`].
///
/// Accepts a bare shortcut (e.g. `"ai"`) to select the latest version, or a versioned form
/// (e.g. `"ai:0.9.0"`) to select a specific version.
pub fn parse_feature_pack(input: &str, registry: &FeaturePackRegistry) -> (r: Result<FeaturePack, String>)
    ensures
        match r {
            Ok(f) => spec_parse_feature_pack(input@, registry@) == Ok::<_, Seq<char>>(f@),
            Err(e) => spec_parse_feature_pack(input@, registry@) == Err::<FeaturePackView, _>(e@),
        },
{
    match feature_pack_chars(&chars_of(input), registry) {
        Ok(f) => Ok(f),
        Err(e) => Err(string_of(&e)),
    }
}

/// Parses a comma-separated list of feature pack references into a list of
/// [`FeaturePack`]s sorted by port offset.
///
/// Supports multiplier prefixes (`3xai`) where the options enable them. Range syntax is
/// refused for feature packs, and WildFly version references are rejected.
pub fn parse_feature_packs(input: &str, registry: &FeaturePackRegistry, options: &DslOptions) -> (r: Result<
    Vec<FeaturePack>,
    String,
>)
    requires
        selected_packs_fit(input@, registry@, *options),
    ensures
        ({
            let (items, errs) = collect_packs(input@, registry@, *options);
            match r {
                Ok(v) => errs.len() == 0 && is_stable_sort(packs_view(v@), items, |f: FeaturePackView| pack_key(f)),
                Err(e) => errs.len() > 0 && e@ == errors_text(errs),
            }
        }),
{
    match packs_chars(&chars_of(input), registry, options) {
        Ok(v) => Ok(v),
        Err(e) => Err(string_of(&e)),
    }
}

/// Parses a comma-separated feature pack list as [`parse_feature_packs`] does, or gives
/// `None` where the list parses without error but the port offset of a pack it selects
/// does not fit in a `u16`.
pub fn try_parse_feature_packs(input: &str, registry: &FeaturePackRegistry, options: &DslOptions) -> (r: Option<
    Result<Vec<FeaturePack>, String>,
>)
    ensures
        r is None <==> !selected_packs_fit(input@, registry@, *options),
        ({
            let (items, errs) = collect_packs(input@, registry@, *options);
            match r {
                Some(Ok(v)) => errs.len() == 0 && is_stable_sort(packs_view(v@), items, |f: FeaturePackView| pack_key(f)),
                Some(Err(e)) => errs.len() > 0 && e@ == errors_text(errs),
                None => true,
            }
        }),
{
    let (items, errors) = gather_packs(&chars_of(input), registry, options);
    let ghost chosen = collect_packs(input@, registry@, *options);
    proof {
        assert forall|j: int| 0 <= j < items@.len() implies items@[j]@ == #[trigger] chosen.0[j] by {
            assert(packs_view(items@)[j] == items@[j]@);
        }
    }
    if errors.len() == 0 && items.len() >= 2 && !pack_offsets_fit(&items) {
        proof {
            assert(chosen.1.len() == 0);
            let j = choose|j: int| 0 <= j < items@.len() && !(spec_port_offset(items@[j]@) <= u16::MAX);
            assert(items@[j]@ == chosen.0[j]);
            assert(0 <= j < chosen.0.len() && !(spec_port_offset(chosen.0[j]) <= u16::MAX));
        }
        return None;
    }
    match finish_packs(items, errors) {
        Ok(v) => Some(Ok(v)),
        Err(e) => Some(Err(string_of(&e))),
    }
}

/// Parses a comma-separated mixed list as [`parse_meta_items`] does, or gives `None` where
/// the list parses without error but the port offset of a feature pack it selects does not
/// fit in a `u16`.
pub fn try_parse_meta_items(
    input: &str,
    wildfly_images: &WildFlyImageRegistry,
    feature_packs: &FeaturePackRegistry,
    wildfly_image_options: &DslOptions,
    feature_pack_options: &DslOptions,
) -> (r: Option<Result<Vec<MetaItem>, String>>)
    ensures
        r is None <==> !selected_items_fit(
            input@,
            wildfly_images@,
            feature_packs@,
            *wildfly_image_options,
            *feature_pack_options,
        ),
        ({
            let (items, errs) = collect_items(
                input@,
                wildfly_images@,
                feature_packs@,
                *wildfly_image_options,
                *feature_pack_options,
            );
            match r {
                Some(Ok(v)) => errs.len() == 0 && is_stable_sort(items_view(v@), items, item_order()),
                Some(Err(e)) => errs.len() > 0 && e@ == errors_text(errs),
                None => true,
            }
        }),
{
    let (items, errors) = gather_items(
        &chars_of(input),
        wildfly_images,
        feature_packs,
        wildfly_image_options,
        feature_pack_options,
    );
    let ghost chosen = collect_items(
        input@,
        wildfly_images@,
        feature_packs@,
        *wildfly_image_options,
        *feature_pack_options,
    );
    proof {
        assert forall|j: int| 0 <= j < items@.len() implies items@[j]@ == #[trigger] chosen.0[j] by {
            assert(items_view(items@)[j] == items@[j]@);
        }
    }
    if errors.len() == 0 && items.len() >= 2 && !item_offsets_fit(&items) {
        proof {
            assert(chosen.1.len() == 0);
            let j = choose|j: int| 0 <= j < items@.len() && !(item_port_offset(items@[j]@) <= u16::MAX);
            assert(items@[j]@ == chosen.0[j]);
            assert(0 <= j < chosen.0.len() && !(item_port_offset(chosen.0[j]) <= u16::MAX));
        }
        return None;
    }
    match finish_items(items, errors) {
        Ok(v) => Some(Ok(v)),
        Err(e) => Some(Err(string_of(&e))),
    }
}

/// Parses a single input string as either a feature pack or a WildFly image.
///
/// Feature pack lookup is tried first; if it fails, the input is parsed as a WildFly version.
pub fn parse_meta_item(
    input: &str,
    wildfly_images: &WildFlyImageRegistry,
    feature_packs: &FeaturePackRegistry,
) -> (r: Result<MetaItem, String>)
    ensures
        match r {
            Ok(m) => spec_parse_meta_item(input@, wildfly_images@, feature_packs@) == Ok::<_, Seq<char>>(m@),
            Err(e) => spec_parse_meta_item(input@, wildfly_images@, feature_packs@) == Err::<MetaItemView, _>(e@),
        },
{
    match meta_item_chars(&chars_of(input), wildfly_images, feature_packs) {
        Ok(m) => Ok(m),
        Err(e) => Err(string_of(&e)),
    }
}

/// Parses a comma-separated list of expressions into a list of [`MetaItem`]s sorted by
/// port offset.
///
/// `wildfly_image_options` controls which features are enabled for WildFly image
/// references, and `feature_pack_options` those for feature pack references. Range syntax is
/// only supported for WildFly images; `feature_pack_options.ranges` is ignored.
pub fn parse_meta_items(
    input: &str,
    wildfly_images: &WildFlyImageRegistry,
    feature_packs: &FeaturePackRegistry,
    wildfly_image_options: &DslOptions,
    feature_pack_options: &DslOptions,
) -> (r: Result<Vec<MetaItem>, String>)
    requires
        selected_items_fit(
            input@,
            wildfly_images@,
            feature_packs@,
            *wildfly_image_options,
            *feature_pack_options,
        ),
    ensures
        ({
            let (items, errs) = collect_items(
                input@,
                wildfly_images@,
                feature_packs@,
                *wildfly_image_options,
                *feature_pack_options,
            );
            match r {
                Ok(v) => errs.len() == 0 && is_stable_sort(items_view(v@), items, item_order()),
                Err(e) => errs.len() > 0 && e@ == errors_text(errs),
            }
        }),
{
    match items_chars(
        &chars_of(input),
        wildfly_images,
        feature_packs,
        wildfly_image_options,
        feature_pack_options,
    ) {
        Ok(v) => Ok(v),
        Err(e) => Err(string_of(&e)),
    }
}


/// The decimal text of a number of two digits.
proof fn lemma_two_digits(n: nat)
    requires
        10 <= n <= 99,
    ensures
        decimal(n) == seq![crate::text::digit_char(n / 10), crate::text::digit_char(n % 10)],
{
    assert(n / 10 < 10);
    assert(decimal(n / 10) == seq![crate::text::digit_char(n / 10)]);
    assert(decimal(n) =~= seq![crate::text::digit_char(n / 10), crate::text::digit_char(n % 10)]);
}

/// The expression of an item parses back to the item: the short version of an image of
/// the registry (or `"dev"` for the development build), `shortcut:version` for a feature
/// pack of the registry.
///
/// An image's short version only parses back where the image is one of WildFly 10.0 to
/// 99.9 and its short version names its identifier, and it only reaches the image where no
/// feature pack is named like it; a feature pack's expression only splits where its
/// shortcut holds no `:`.
pub proof fn lemma_expression_roundtrip(
    imgs: Seq<WildFlyImageView>,
    fps: Seq<FeaturePackView>,
    m: MetaItemView,
)
    requires
        crate::wildfly_image::ids_increasing(imgs),
        crate::feature_pack::keys_increasing(fps),
        crate::feature_pack::versions_reparse(fps),
        match m {
            MetaItemView::Image(i) => {
                &&& i == dev_image() || (imgs.contains(i) && 100 <= i.identifier <= 999
                    && crate::wildfly_image::label_matches(i))
                &&& forall|j: int|
                    0 <= j < fps.len() ==> #[trigger] fps[j].shortcut != crate::meta_item::spec_expression(m)
            },
            MetaItemView::FeaturePack(f) => fps.contains(f) && !f.shortcut.contains(':'),
        },
    ensures
        spec_parse_meta_item(crate::meta_item::spec_expression(m), imgs, fps) == Ok::<_, Seq<char>>(m),
{
    let e = crate::meta_item::spec_expression(m);
    match m {
        MetaItemView::Image(i) => {
            assert(latest_pack(fps, e) is None) by {
                if exists|k: int| crate::feature_pack::is_latest_at(fps, e, k) {
                    let k = choose|k: int| crate::feature_pack::is_latest_at(fps, e, k);
                    assert(fps[k].shortcut == e);
                }
            }
            reveal_strlit("dev");
            if i == dev_image() {
                assert(e == DEVELOPMENT_VERSION@);
                assert(!e.contains(':')) by {
                    if e.contains(':') {
                        let k = choose|k: int| 0 <= k < e.len() && e[k] == ':';
                    }
                }
                assert(split_once_char(e, ':') is None);
                assert(spec_parse_image(e, imgs) == Ok::<_, Seq<char>>(dev_image()));
            } else {
                let id = i.identifier;
                let major = (id / 10) as nat;
                let minor = (id % 10) as nat;
                lemma_two_digits(major);
                let d0 = crate::text::digit_char(major / 10);
                let d1 = crate::text::digit_char(major % 10);
                let d2 = crate::text::digit_char(minor);
                assert(decimal(minor) == seq![d2]);
                assert(e =~= seq![d0, d1, '.', d2]);
                assert(!e.contains(':')) by {
                    if e.contains(':') {
                        let k = choose|k: int| 0 <= k < e.len() && e[k] == ':';
                    }
                }
                assert(split_once_char(e, ':') is None);
                assert(e != DEVELOPMENT_VERSION@) by {
                    assert(e.len() != DEVELOPMENT_VERSION@.len());
                }
                assert(version_form(e));
                assert(digit_value(d0) == major / 10);
                assert(digit_value(d1) == major % 10);
                assert(digit_value(d2) == minor);
                assert(version_id(e) == id);
                let w = choose|w: int| 0 <= w < imgs.len() && imgs[w] == i;
                crate::wildfly_image::lemma_image_at(imgs, w);
                assert(spec_parse_image(e, imgs) == Ok::<_, Seq<char>>(i));
            }
        },
        MetaItemView::FeaturePack(f) => {
            let n = f.shortcut.len() as int;
            let vt = crate::version::version_text(f.version);
            assert(e =~= f.shortcut + seq![':'] + vt);
            assert(first_char_at(e, ':', n)) by {
                assert forall|j: int| 0 <= j < n implies #[trigger] e[j] != ':' by {
                    assert(e[j] == f.shortcut[j]);
                    if f.shortcut[j] == ':' {
                        assert(f.shortcut.contains(':'));
                    }
                }
            }
            let k = choose|k: int| first_char_at(e, ':', k);
            assert(k == n) by {
                if k < n {
                    assert(e[k] != ':');
                }
                if n < k {
                    assert(e[n] != ':');
                }
            }
            assert(e.take(n) =~= f.shortcut);
            assert(e.skip(n + 1) =~= vt);
            assert(split_once_char(e, ':') == Some((f.shortcut, vt)));
            let w = choose|w: int| 0 <= w < fps.len() && fps[w] == f;
            assert(crate::version::semver_parsed(vt) == Some(f.version));
            crate::feature_pack::lemma_pack_at(fps, w);
            assert(fp_lookup(fps, f.shortcut, vt) == Some(f));
        },
    }
}

/// An item belongs to the registries: an image of `imgs` or the development build, or a
/// feature pack of `fps`.
pub open spec fn item_in(m: MetaItemView, imgs: Seq<WildFlyImageView>, fps: Seq<FeaturePackView>) -> bool {
    match m {
        MetaItemView::Image(i) => i == dev_image() || imgs.contains(i),
        MetaItemView::FeaturePack(f) => fps.contains(f),
    }
}

/// Every element of `repeat_each(s, n)` is one of `s`.
proof fn lemma_repeat_each_within<A>(s: Seq<A>, n: nat)
    ensures
        forall|j: int| 0 <= j < repeat_each(s, n).len() ==> s.contains(#[trigger] repeat_each(s, n)[j]),
    decreases s.len(),
{
    if s.len() > 0 {
        let u = s.drop_last();
        lemma_repeat_each_within(u, n);
        let a = repeat_each(u, n);
        assert forall|j: int| 0 <= j < repeat_each(s, n).len() implies s.contains(#[trigger] repeat_each(s, n)[j]) by {
            if j < a.len() {
                assert(repeat_each(s, n)[j] == a[j]);
                let w = choose|w: int| 0 <= w < u.len() && u[w] == a[j];
                assert(s[w] == a[j]);
            } else {
                assert(repeat_each(s, n)[j] == s.last());
                assert(s[s.len() - 1] == s.last());
            }
        }
    }
}

/// A parsed image is one of the registry or the development build.
proof fn lemma_image_within(input: Seq<char>, imgs: Seq<WildFlyImageView>)
    ensures
        spec_parse_image(input, imgs) matches Ok(i) ==> i == dev_image() || imgs.contains(i),
        input != DEVELOPMENT_VERSION@ ==> (spec_parse_image(input, imgs) matches Ok(i) ==> imgs.contains(i)),
{
    if input != DEVELOPMENT_VERSION@ && version_form(input) {
        let id = version_id(input) as u16;
        if crate::wildfly_image::has_id(imgs, id) {
            let k = choose|k: int| 0 <= k < imgs.len() && imgs[k].identifier == id;
            assert(imgs.contains(imgs[k]));
        }
    }
}

/// The images a range selects are ones of the registry.
proof fn lemma_range_within(range: Seq<char>, imgs: Seq<WildFlyImageView>, opts: DslOptions)
    ensures
        spec_parse_range(range, imgs, opts) matches Ok(v) ==> forall|j: int| 0 <= j < v.len() ==> imgs.contains(#[trigger] v[j]),
{
    let mr = if opts.multipliers {
        spec_extract_multiplier(range)
    } else {
        Some((1u16, range))
    };
    if let Some((m, r)) = mr {
        if let Some((start, end)) = split_once_dots(r) {
            lemma_image_within(start, imgs);
            if imgs.len() > 0 {
                assert(imgs.contains(imgs[0]));
            }
            if let Ok(v) = spec_parse_range(range, imgs, opts) {
                assert forall|j: int| 0 <= j < v.len() implies imgs.contains(#[trigger] v[j]) by {
                    let from = if start.len() == 0 { imgs[0] } else { spec_parse_image(start, imgs)->Ok_0 };
                    let to = if end.len() == 0 { imgs.last() } else { spec_parse_image(end, imgs)->Ok_0 };
                    if from.identifier == to.identifier {
                        assert(v[j] == from);
                    } else {
                        let f = imgs.filter(|i: WildFlyImageView| from.identifier <= i.identifier <= to.identifier);
                        lemma_repeat_each_within(f, m as nat);
                        assert(f.contains(v[j]));
                        imgs.lemma_filter_contains_rev(|i: WildFlyImageView| from.identifier <= i.identifier <= to.identifier, v[j]);
                    }
                }
            }
        }
    }
}

/// The items a segment of a mixed list stands for belong to the registries.
proof fn lemma_item_segment_within(
    seg: Seq<char>,
    imgs: Seq<WildFlyImageView>,
    fps: Seq<FeaturePackView>,
    image_opts: DslOptions,
    pack_opts: DslOptions,
)
    ensures
        spec_item_segment(seg, imgs, fps, image_opts, pack_opts) matches Ok(v) ==> forall|j: int|
            0 <= j < v.len() ==> item_in(#[trigger] v[j], imgs, fps),
{
    if image_opts.ranges && has_dots(seg) {
        lemma_range_within(seg, imgs, image_opts);
    } else {
        match spec_extract_multiplier(seg) {
            None => {},
            Some((m, v)) => {
                lemma_feature_pack_in_registry(v, fps);
                lemma_image_within(v, imgs);
            },
        }
    }
}

/// Gathering the results of the segments keeps what holds of every result.
proof fn lemma_collect_within<A>(
    segs: Seq<Seq<char>>,
    f: spec_fn(Seq<char>) -> Result<Seq<A>, Seq<char>>,
    p: spec_fn(A) -> bool,
)
    requires
        forall|seg: Seq<char>| (#[trigger] f(seg)) matches Ok(v) ==> forall|j: int| 0 <= j < v.len() ==> p(#[trigger] v[j]),
    ensures
        forall|j: int| 0 <= j < collect(segs, f).0.len() ==> p(#[trigger] collect(segs, f).0[j]),
    decreases segs.len(),
{
    if segs.len() > 0 {
        lemma_collect_within(segs.drop_last(), f, p);
        let (items, errs) = collect(segs.drop_last(), f);
        let seg = trim(segs.last());
        if seg.len() > 0 {
            if let Ok(x) = f(seg) {
                assert forall|j: int| 0 <= j < collect(segs, f).0.len() implies p(#[trigger] collect(segs, f).0[j]) by {
                    if j < items.len() {
                        assert(collect(segs, f).0[j] == items[j]);
                    } else {
                        assert(collect(segs, f).0[j] == x[j - items.len()]);
                    }
                }
            }
        }
    }
}

/// Parsing never invents items: every item a mixed list stands for is an image of the
/// registry, the development build, or a feature pack of the registry.
pub proof fn lemma_parsed_items_within(
    input: Seq<char>,
    imgs: Seq<WildFlyImageView>,
    fps: Seq<FeaturePackView>,
    image_opts: DslOptions,
    pack_opts: DslOptions,
)
    ensures
        forall|j: int|
            0 <= j < collect_items(input, imgs, fps, image_opts, pack_opts).0.len() ==> item_in(
                #[trigger] collect_items(input, imgs, fps, image_opts, pack_opts).0[j],
                imgs,
                fps,
            ),
{
    let f = |seg: Seq<char>| spec_item_segment(seg, imgs, fps, image_opts, pack_opts);
    let p = |m: MetaItemView| item_in(m, imgs, fps);
    assert forall|seg: Seq<char>| (#[trigger] f(seg)) matches Ok(v) ==> forall|j: int| 0 <= j < v.len() ==> p(#[trigger] v[j]) by {
        lemma_item_segment_within(seg, imgs, fps, image_opts, pack_opts);
    }
    lemma_collect_within(split_on(input, ','), f, p);
}

/// Gathering the results of two runs of segments one after the other gives the items and
/// the errors of the first run followed by those of the second.
proof fn lemma_collect_concat<A>(
    s1: Seq<Seq<char>>,
    s2: Seq<Seq<char>>,
    f: spec_fn(Seq<char>) -> Result<Seq<A>, Seq<char>>,
)
    ensures
        collect(s1 + s2, f) == (collect(s1, f).0 + collect(s2, f).0, collect(s1, f).1 + collect(s2, f).1),
    decreases s2.len(),
{
    let (i1, e1) = collect(s1, f);
    if s2.len() == 0 {
        assert(s1 + s2 =~= s1);
        assert(i1 + Seq::<A>::empty() =~= i1);
        assert(e1 + Seq::<Seq<char>>::empty() =~= e1);
    } else {
        lemma_collect_concat(s1, s2.drop_last(), f);
        assert((s1 + s2).drop_last() =~= s1 + s2.drop_last());
        assert((s1 + s2).last() == s2.last());
        let (i2, e2) = collect(s2.drop_last(), f);
        let seg = trim(s2.last());
        if seg.len() > 0 {
            match f(seg) {
                Ok(x) => {
                    assert(i1 + i2 + x =~= i1 + (i2 + x));
                },
                Err(e) => {
                    assert((e1 + e2).push(e) =~= e1 + e2.push(e));
                },
            }
        }
    }
}

/// Parsing the list `a,b` gives the items and the errors of `a` followed by those of `b`;
/// where both parse, its items sort stably, by port offset, exactly as the sorted results of
/// `a` and of `b` put one after the other do.
pub proof fn lemma_parse_concat(
    a: Seq<char>,
    b: Seq<char>,
    imgs: Seq<WildFlyImageView>,
    fps: Seq<FeaturePackView>,
    image_opts: DslOptions,
    pack_opts: DslOptions,
    x: Seq<MetaItemView>,
    y: Seq<MetaItemView>,
)
    ensures
        ({
            let (ia, ea) = collect_items(a, imgs, fps, image_opts, pack_opts);
            let (ib, eb) = collect_items(b, imgs, fps, image_opts, pack_opts);
            collect_items(a + seq![','] + b, imgs, fps, image_opts, pack_opts) == (ia + ib, ea + eb)
        }),
        ({
            let (ia, ea) = collect_items(a, imgs, fps, image_opts, pack_opts);
            let (ib, eb) = collect_items(b, imgs, fps, image_opts, pack_opts);
            let ab = collect_items(a + seq![','] + b, imgs, fps, image_opts, pack_opts).0;
            is_stable_sort(x, ia, item_order()) && is_stable_sort(y, ib, item_order())
                ==> forall|z: Seq<MetaItemView>|
                is_stable_sort(z, ab, item_order())
                    <==> #[trigger] is_stable_sort(z, x + y, item_order())
        }),
{
    let f = |seg: Seq<char>| spec_item_segment(seg, imgs, fps, image_opts, pack_opts);
    lemma_split_on_concat(a, b, ',');
    lemma_collect_concat(split_on(a, ','), split_on(b, ','), f);
    let (ia, ea) = collect_items(a, imgs, fps, image_opts, pack_opts);
    let (ib, eb) = collect_items(b, imgs, fps, image_opts, pack_opts);
    let key = item_order();
    if is_stable_sort(x, ia, key) && is_stable_sort(y, ib, key) {
        lemma_stable_sort_concat(x, ia, y, ib, key);
    }
}

/// The ranges flag of the feature pack options plays no part in parsing a mixed list: two
/// option sets with the same multipliers flag give the same items and errors, and so the
/// same sorted result.
pub proof fn lemma_pack_ranges_ignored(
    input: Seq<char>,
    imgs: Seq<WildFlyImageView>,
    fps: Seq<FeaturePackView>,
    image_opts: DslOptions,
    pack_opts1: DslOptions,
    pack_opts2: DslOptions,
)
    requires
        pack_opts1.multipliers == pack_opts2.multipliers,
    ensures
        collect_items(input, imgs, fps, image_opts, pack_opts1) == collect_items(input, imgs, fps, image_opts, pack_opts2),
        forall|z1: Seq<MetaItemView>, z2: Seq<MetaItemView>|
            #![trigger is_stable_sort(z1, collect_items(input, imgs, fps, image_opts, pack_opts1).0, item_order()), is_stable_sort(z2, collect_items(input, imgs, fps, image_opts, pack_opts2).0, item_order())]
            is_stable_sort(z1, collect_items(input, imgs, fps, image_opts, pack_opts1).0, item_order())
                && is_stable_sort(z2, collect_items(input, imgs, fps, image_opts, pack_opts2).0, item_order())
                ==> z1 == z2,
{
    let f1 = |seg: Seq<char>| spec_item_segment(seg, imgs, fps, image_opts, pack_opts1);
    let f2 = |seg: Seq<char>| spec_item_segment(seg, imgs, fps, image_opts, pack_opts2);
    assert(f1 =~= f2);
    let items = collect_items(input, imgs, fps, image_opts, pack_opts1).0;
    let key = item_order();
    assert forall|z1: Seq<MetaItemView>, z2: Seq<MetaItemView>|
        is_stable_sort(z1, items, key) && is_stable_sort(z2, items, key) implies z1 == z2 by {
        lemma_stable_sort_unique(z1, z2, items, key);
    }
}

} // verus!
