//! The level document codec: the one bit-exact wire contract of the
//! library.
//!
//! A document is JSON-shaped text over the fixed grammar
//! `{"player":{"x":N,"y":N},"goal":{"x":N,"y":N},"danger_blocks":[...],
//! "danger_circles":[...],"images":[...]}`, where every number `N` is a
//! decimal pixel value with up to three fraction digits — exactly the
//! precision of the milli-unit coordinates, so writing and re-reading a
//! level loses nothing.  The parser accepts the members of every object
//! in any order and whitespace between tokens; the writer emits a
//! canonical form with the members in declaration order and no
//! whitespace.

use vstd::prelude::*;
use vstd::string::*;

use crate::level::{filename_char_ok, level_coord_ok, LevelBlockModel, LevelCircleModel,
    LevelGoalModel, LevelPlayerModel, LEVEL_COORD_LIMIT};
use crate::timefmt::{digit_char, digit_str};

verus! {

/// Whitespace the parser skips between tokens.
pub open spec fn is_ws(c: char) -> bool {
    c == ' ' || c == '\n' || c == '\t' || c == '\r'
}

/// A decimal digit character.
pub open spec fn is_digit(c: char) -> bool {
    48 <= c as u32 <= 57
}

/// The numeric value of a digit character.
pub open spec fn dval(c: char) -> int {
    c as u32 - 48
}

/// `digit_char` writes digits and `dval` reads them back.
pub proof fn lemma_digit_char(d: int)
    requires
        0 <= d < 10,
    ensures
        is_digit(digit_char(d)),
        dval(digit_char(d)) == d,
{
}

/// The decimal digits of `n`, most significant first.
pub open spec fn spec_ser_nat(n: nat) -> Seq<char>
    decreases n,
{
    if n < 10 {
        seq![digit_char(n as int)]
    } else {
        spec_ser_nat(n / 10).push(digit_char((n % 10) as int))
    }
}

/// The fraction digits for a milli-unit remainder `0 < f < 1000`, with
/// trailing zeros trimmed.
pub open spec fn spec_ser_frac(f: nat) -> Seq<char> {
    if f % 100 == 0 {
        seq![digit_char(f as int / 100)]
    } else if f % 10 == 0 {
        seq![digit_char(f as int / 100), digit_char((f as int / 10) % 10)]
    } else {
        seq![
            digit_char(f as int / 100),
            digit_char((f as int / 10) % 10),
            digit_char(f as int % 10),
        ]
    }
}

/// A milli-unit value rendered as a decimal pixel number: optional sign,
/// integer pixels, and a fraction part only when one is needed.
pub open spec fn spec_ser_num(n: int) -> Seq<char> {
    let a = if n < 0 {
        -n
    } else {
        n
    };
    let sign: Seq<char> = if n < 0 {
        seq!['-']
    } else {
        Seq::empty()
    };
    sign + spec_ser_nat((a / 1000) as nat) + if a % 1000 == 0 {
        Seq::<char>::empty()
    } else {
        seq!['.'] + spec_ser_frac((a % 1000) as nat)
    }
}

/// The index of the first non-digit at or after `i`.
pub open spec fn digits_end(s: Seq<char>, i: int) -> int
    decreases s.len() - i when 0 <= i <= s.len()
{
    if i < s.len() && is_digit(s[i]) {
        digits_end(s, i + 1)
    } else {
        i
    }
}

/// The value of the digit run `s[i..j)`.
pub open spec fn digits_val(s: Seq<char>, i: int, j: int) -> int
    decreases j - i when i <= j
{
    if i >= j {
        0
    } else {
        digits_val(s, i, j - 1) * 10 + dval(s[j - 1])
    }
}

/// The scale that turns `nd` fraction digits into milli-units.
pub open spec fn frac_scale(nd: int) -> int {
    if nd == 1 {
        100
    } else if nd == 2 {
        10
    } else {
        1
    }
}

/// Parse a number at `i`: optional minus sign, at least one integer
/// digit, and optionally a dot with one to three fraction digits.  The
/// value, in milli-units, must lie within the document bound.
pub open spec fn spec_parse_number(s: Seq<char>, i: int) -> Option<(i64, int)> {
    let neg = i < s.len() && s[i] == '-';
    let i1 = if neg {
        i + 1
    } else {
        i
    };
    let j = digits_end(s, i1);
    if j == i1 {
        None
    } else {
        let ip = digits_val(s, i1, j);
        let has_frac = j < s.len() && s[j] == '.';
        let k = digits_end(s, j + 1);
        if has_frac && (k == j + 1 || k - (j + 1) > 3) {
            None
        } else {
            let fp = if has_frac {
                digits_val(s, j + 1, k) * frac_scale(k - (j + 1))
            } else {
                0
            };
            let j2 = if has_frac {
                k
            } else {
                j
            };
            let a = ip * 1000 + fp;
            let v = if neg {
                -a
            } else {
                a
            };
            if -LEVEL_COORD_LIMIT <= v <= LEVEL_COORD_LIMIT {
                Some((v as i64, j2))
            } else {
                None
            }
        }
    }
}

/// `digits_val` only reads the indexed slice: equal slices at an offset
/// have equal values.
pub proof fn lemma_digits_val_shift(s: Seq<char>, t: Seq<char>, i: int, j: int, d: int)
    requires
        0 <= i <= j <= s.len(),
        0 <= i + d,
        j + d <= t.len(),
        forall|k: int| i <= k < j ==> t[k + d] == s[k],
    ensures
        digits_val(t, i + d, j + d) == digits_val(s, i, j),
    decreases j - i,
{
    if i < j {
        lemma_digits_val_shift(s, t, i, j - 1, d);
        assert(t[(j - 1) + d] == s[j - 1]);
    }
}

/// Where a digit run ends: `j` is the first non-digit after a run of
/// digits starting at `i`.
pub proof fn lemma_digits_end_exact(s: Seq<char>, i: int, j: int)
    requires
        0 <= i <= j <= s.len(),
        forall|k: int| i <= k < j ==> is_digit(#[trigger] s[k]),
        j == s.len() || !is_digit(s[j]),
    ensures
        digits_end(s, i) == j,
    decreases j - i,
{
    if i < j {
        lemma_digits_end_exact(s, i + 1, j);
    }
}

/// The digit string of `n` is all digits, never empty, and reads back as
/// `n`.
pub proof fn lemma_ser_nat_props(n: nat)
    ensures
        spec_ser_nat(n).len() >= 1,
        forall|k: int|
            0 <= k < spec_ser_nat(n).len() ==> is_digit(#[trigger] spec_ser_nat(n)[k]),
        digits_val(spec_ser_nat(n), 0, spec_ser_nat(n).len() as int) == n,
    decreases n,
{
    if n < 10 {
        lemma_digit_char(n as int);
        assert(digits_val(spec_ser_nat(n), 0, 1) == digits_val(spec_ser_nat(n), 0, 0) * 10 + dval(
            spec_ser_nat(n)[0],
        ));
    } else {
        lemma_ser_nat_props(n / 10);
        lemma_digit_char((n % 10) as int);
        let p = spec_ser_nat(n / 10);
        let w = spec_ser_nat(n);
        let l = p.len() as int;
        assert(w == p.push(digit_char((n % 10) as int)));
        assert(forall|k: int| 0 <= k < l ==> w[k] == p[k]);
        lemma_digits_val_shift(p, w, 0, l, 0);
        assert(digits_val(w, 0, l + 1) == digits_val(w, 0, l) * 10 + dval(w[l]));
    }
}

/// A serialized number embedded at position `i`, followed by anything
/// that cannot extend it, parses back to exactly that number, consuming
/// exactly its own characters.
#[verifier::rlimit(100)]
pub proof fn lemma_number_roundtrip_at(s: Seq<char>, i: int, n: int)
    requires
        -LEVEL_COORD_LIMIT <= n <= LEVEL_COORD_LIMIT,
        0 <= i,
        i + spec_ser_num(n).len() <= s.len(),
        s.subrange(i, i + spec_ser_num(n).len()) == spec_ser_num(n),
        i + spec_ser_num(n).len() == s.len() || (!is_digit(s[i + spec_ser_num(n).len()]) && s[i
            + spec_ser_num(n).len()] != '.'),
    ensures
        spec_parse_number(s, i) == Some((n as i64, i + spec_ser_num(n).len())),
{
    let w = spec_ser_num(n);
    assert forall|k: int| 0 <= k < w.len() implies s[i + k] == w[k] by {
        assert(s.subrange(i, i + w.len())[k] == s[i + k]);
    }
    let a = if n < 0 {
        -n
    } else {
        n
    };
    let ip = (a / 1000) as nat;
    let fp = (a % 1000) as nat;
    let ipd = spec_ser_nat(ip);
    let l = ipd.len() as int;
    lemma_ser_nat_props(ip);
    let off = if n < 0 {
        i + 1
    } else {
        i
    };
    assert forall|k: int| 0 <= k < l implies s[k + off] == ipd[k] by {
        assert(s[i + ((k + off) - i)] == w[(k + off) - i]);
    }
    assert(s[i + 0] == w[0]);
    if n < 0 {
        assert(w[0] == '-');
    }
    lemma_digits_val_shift(ipd, s, 0, l, off);
    assert forall|k: int| off <= k < off + l implies is_digit(#[trigger] s[k]) by {
        assert(s[(k - off) + off] == ipd[k - off]);
    }
    if fp == 0 {
        assert(w == (if n < 0 {
            seq!['-']
        } else {
            Seq::<char>::empty()
        }) + ipd);
        assert(i + w.len() == off + l);
        lemma_digits_end_exact(s, off, off + l);
        assert(digits_val(s, off, off + l) == ip);
        assert(a == ip * 1000 + 0);
    } else {
        let fd = spec_ser_frac(fp);
        let nd = fd.len() as int;
        assert(w == (if n < 0 {
            seq!['-']
        } else {
            Seq::<char>::empty()
        }) + ipd + seq!['.'] + fd);
        assert(s[i + ((off + l) - i)] == w[(off + l) - i]);
        assert(s[off + l] == '.');
        lemma_digits_end_exact(s, off, off + l);
        // the fraction digits
        let fstart = off + l + 1;
        assert(s[i + ((fstart) - i)] == w[(fstart) - i]);
        if fd.len() >= 2 {
            assert(s[i + ((fstart + 1) - i)] == w[(fstart + 1) - i]);
        }
        if fd.len() >= 3 {
            assert(s[i + ((fstart + 2) - i)] == w[(fstart + 2) - i]);
        }
        if fp % 100 == 0 {
            lemma_digit_char(fp as int / 100);
            assert(fd.len() == 1);
            assert(s[fstart] == digit_char(fp as int / 100));
            lemma_digits_end_exact(s, fstart, fstart + 1);
            assert(digits_val(s, fstart, fstart + 1) == digits_val(s, fstart, fstart) * 10 + dval(
                s[fstart],
            ));
            assert(fp == (fp as int / 100) * 100) by (nonlinear_arith)
                requires
                    0 <= fp < 1000,
                    fp as int % 100 == 0,
            ;
            assert(digits_val(s, fstart, fstart + 1) * frac_scale(1) == fp);
        } else if fp % 10 == 0 {
            lemma_digit_char(fp as int / 100);
            lemma_digit_char((fp as int / 10) % 10);
            assert(fd.len() == 2);
            assert(s[fstart] == digit_char(fp as int / 100));
            assert(s[fstart + 1] == digit_char((fp as int / 10) % 10));
            lemma_digits_end_exact(s, fstart, fstart + 2);
            assert(digits_val(s, fstart, fstart) == 0);
            assert(digits_val(s, fstart, fstart + 1) == digits_val(s, fstart, fstart) * 10 + dval(
                s[fstart],
            ));
            assert(digits_val(s, fstart, fstart + 2) == digits_val(s, fstart, fstart + 1) * 10
                + dval(s[fstart + 1]));
            assert(fp == (fp as int / 100) * 100 + ((fp as int / 10) % 10) * 10 + fp as int % 10)
                by (nonlinear_arith)
                requires
                    0 <= fp < 1000,
            ;
            assert(digits_val(s, fstart, fstart + 2) * frac_scale(2) == fp);
        } else {
            lemma_digit_char(fp as int / 100);
            lemma_digit_char((fp as int / 10) % 10);
            lemma_digit_char(fp as int % 10);
            assert(fd.len() == 3);
            assert(s[fstart] == digit_char(fp as int / 100));
            assert(s[fstart + 1] == digit_char((fp as int / 10) % 10));
            assert(s[fstart + 2] == digit_char(fp as int % 10));
            lemma_digits_end_exact(s, fstart, fstart + 3);
            assert(digits_val(s, fstart, fstart) == 0);
            assert(digits_val(s, fstart, fstart + 1) == digits_val(s, fstart, fstart) * 10 + dval(
                s[fstart],
            ));
            assert(digits_val(s, fstart, fstart + 2) == digits_val(s, fstart, fstart + 1) * 10
                + dval(s[fstart + 1]));
            assert(digits_val(s, fstart, fstart + 3) == digits_val(s, fstart, fstart + 2) * 10
                + dval(s[fstart + 2]));
            assert(fp == (fp as int / 100) * 100 + ((fp as int / 10) % 10) * 10 + fp as int % 10)
                by (nonlinear_arith)
                requires
                    0 <= fp < 1000,
            ;
            assert(digits_val(s, fstart, fstart + 3) * frac_scale(3) == fp);
        }
        assert(a == ip * 1000 + fp);
    }
}

// ---------------------------------------------------------------------
// Ghost view of a document
// ---------------------------------------------------------------------

/// The mathematical content of one image entry.
pub ghost struct ImageView {
    pub filename: Seq<char>,
    pub x: i64,
    pub y: i64,
}

/// The mathematical content of a whole level document.
pub ghost struct LevelView {
    pub player: LevelPlayerModel,
    pub goal: LevelGoalModel,
    pub blocks: Seq<LevelBlockModel>,
    pub circles: Seq<LevelCircleModel>,
    pub images: Seq<ImageView>,
}

/// The mathematical content of an in-memory image entry.
pub open spec fn image_view(im: crate::level::LevelImageModel) -> ImageView {
    ImageView { filename: im.filename@, x: im.x, y: im.y }
}

/// The content of an in-memory level model.
pub open spec fn view_of_level(m: crate::level::LevelModel) -> LevelView {
    LevelView {
        player: m.player,
        goal: m.goal,
        blocks: m.danger_blocks@,
        circles: m.danger_circles@,
        images: m.images@.map_values(|im: crate::level::LevelImageModel| image_view(im)),
    }
}

/// Every value of the view is within the document bound and every
/// filename can be carried verbatim.
pub open spec fn view_wf(v: LevelView) -> bool {
    &&& level_coord_ok(v.player.x) && level_coord_ok(v.player.y)
    &&& level_coord_ok(v.goal.x) && level_coord_ok(v.goal.y)
    &&& forall|i: int|
        0 <= i < v.blocks.len() ==> {
            let b = #[trigger] v.blocks[i];
            level_coord_ok(b.x) && level_coord_ok(b.y) && level_coord_ok(b.w) && level_coord_ok(
                b.h,
            )
        }
    &&& forall|i: int|
        0 <= i < v.circles.len() ==> {
            let c = #[trigger] v.circles[i];
            level_coord_ok(c.x) && level_coord_ok(c.y) && level_coord_ok(c.r)
        }
    &&& forall|i: int|
        0 <= i < v.images.len() ==> {
            let im = #[trigger] v.images[i];
            level_coord_ok(im.x) && level_coord_ok(im.y) && crate::level::filename_ok(im.filename)
        }
}

// ---------------------------------------------------------------------
// Parser specification
// ---------------------------------------------------------------------

/// The index of the first non-whitespace character at or after `i`.
pub open spec fn spec_skip_ws(s: Seq<char>, i: int) -> int
    decreases s.len() - i when 0 <= i <= s.len()
{
    if i < s.len() && is_ws(s[i]) {
        spec_skip_ws(s, i + 1)
    } else {
        i
    }
}

/// The index of the first character at or after `i` that cannot belong to
/// a string body.
pub open spec fn string_body_end(s: Seq<char>, i: int) -> int
    decreases s.len() - i when 0 <= i <= s.len()
{
    if i < s.len() && filename_char_ok(s[i]) {
        string_body_end(s, i + 1)
    } else {
        i
    }
}

/// Parse a quoted string of plain characters (no escapes) at `i`.
pub open spec fn spec_parse_string(s: Seq<char>, i: int) -> Option<(Seq<char>, int)> {
    if i < s.len() && s[i] == '"' {
        let j = string_body_end(s, i + 1);
        if j < s.len() && s[j] == '"' {
            Some((s.subrange(i + 1, j), j + 1))
        } else {
            None
        }
    } else {
        None
    }
}

/// Parse `"key" : number` members of a two-field point object until the
/// closing brace; both fields must appear exactly once, in any order.
pub open spec fn spec_parse_xy_members(
    s: Seq<char>,
    i: int,
    x: Option<i64>,
    y: Option<i64>,
) -> Option<((i64, i64), int)>
    decreases (if x is None { 1int } else { 0int }) + (if y is None { 1int } else { 0int })
{
    let i1 = spec_skip_ws(s, i);
    match spec_parse_string(s, i1) {
        None => None,
        Some((key, i2)) => {
            let i3 = spec_skip_ws(s, i2);
            if !(i3 < s.len() && s[i3] == ':') {
                None
            } else {
                match spec_parse_number(s, spec_skip_ws(s, i3 + 1)) {
                    None => None,
                    Some((v, i5)) => {
                        let i6 = spec_skip_ws(s, i5);
                        if key == "x"@ && x is None {
                            if i6 < s.len() && s[i6] == ',' {
                                spec_parse_xy_members(s, i6 + 1, Some(v), y)
                            } else if i6 < s.len() && s[i6] == '}' && y is Some {
                                Some(((v, y->0), i6 + 1))
                            } else {
                                None
                            }
                        } else if key == "y"@ && y is None {
                            if i6 < s.len() && s[i6] == ',' {
                                spec_parse_xy_members(s, i6 + 1, x, Some(v))
                            } else if i6 < s.len() && s[i6] == '}' && x is Some {
                                Some(((x->0, v), i6 + 1))
                            } else {
                                None
                            }
                        } else {
                            None
                        }
                    },
                }
            }
        },
    }
}

/// Parse a `{"x":N,"y":N}` object at `i` (fields in any order).
pub open spec fn spec_parse_point(s: Seq<char>, i: int) -> Option<((i64, i64), int)> {
    let i1 = spec_skip_ws(s, i);
    if i1 < s.len() && s[i1] == '{' {
        spec_parse_xy_members(s, i1 + 1, None, None)
    } else {
        None
    }
}

/// Parse the members of a four-field block object until the closing
/// brace; each of `x`, `y`, `w`, `h` must appear exactly once.
pub open spec fn spec_parse_block_members(
    s: Seq<char>,
    i: int,
    x: Option<i64>,
    y: Option<i64>,
    w: Option<i64>,
    h: Option<i64>,
) -> Option<(LevelBlockModel, int)>
    decreases (if x is None { 1int } else { 0int }) + (if y is None { 1int } else { 0int }) + (
    if w is None { 1int } else { 0int }) + (if h is None { 1int } else { 0int })
{
    let i1 = spec_skip_ws(s, i);
    match spec_parse_string(s, i1) {
        None => None,
        Some((key, i2)) => {
            let i3 = spec_skip_ws(s, i2);
            if !(i3 < s.len() && s[i3] == ':') {
                None
            } else {
                match spec_parse_number(s, spec_skip_ws(s, i3 + 1)) {
                    None => None,
                    Some((v, i5)) => {
                        let i6 = spec_skip_ws(s, i5);
                        let more = i6 < s.len() && s[i6] == ',';
                        let done = i6 < s.len() && s[i6] == '}';
                        if key == "x"@ && x is None {
                            if more {
                                spec_parse_block_members(s, i6 + 1, Some(v), y, w, h)
                            } else if done && y is Some && w is Some && h is Some {
                                Some((LevelBlockModel { x: v, y: y->0, w: w->0, h: h->0 }, i6 + 1))
                            } else {
                                None
                            }
                        } else if key == "y"@ && y is None {
                            if more {
                                spec_parse_block_members(s, i6 + 1, x, Some(v), w, h)
                            } else if done && x is Some && w is Some && h is Some {
                                Some((LevelBlockModel { x: x->0, y: v, w: w->0, h: h->0 }, i6 + 1))
                            } else {
                                None
                            }
                        } else if key == "w"@ && w is None {
                            if more {
                                spec_parse_block_members(s, i6 + 1, x, y, Some(v), h)
                            } else if done && x is Some && y is Some && h is Some {
                                Some((LevelBlockModel { x: x->0, y: y->0, w: v, h: h->0 }, i6 + 1))
                            } else {
                                None
                            }
                        } else if key == "h"@ && h is None {
                            if more {
                                spec_parse_block_members(s, i6 + 1, x, y, w, Some(v))
                            } else if done && x is Some && y is Some && w is Some {
                                Some((LevelBlockModel { x: x->0, y: y->0, w: w->0, h: v }, i6 + 1))
                            } else {
                                None
                            }
                        } else {
                            None
                        }
                    },
                }
            }
        },
    }
}

/// Parse a `{"x":N,"y":N,"w":N,"h":N}` object at `i`.
pub open spec fn spec_parse_block(s: Seq<char>, i: int) -> Option<(LevelBlockModel, int)> {
    let i1 = spec_skip_ws(s, i);
    if i1 < s.len() && s[i1] == '{' {
        spec_parse_block_members(s, i1 + 1, None, None, None, None)
    } else {
        None
    }
}

/// Parse the members of a three-field circle object until the closing
/// brace; each of `x`, `y`, `r` must appear exactly once.
pub open spec fn spec_parse_circle_members(
    s: Seq<char>,
    i: int,
    x: Option<i64>,
    y: Option<i64>,
    r: Option<i64>,
) -> Option<(LevelCircleModel, int)>
    decreases (if x is None { 1int } else { 0int }) + (if y is None { 1int } else { 0int }) + (
    if r is None { 1int } else { 0int })
{
    let i1 = spec_skip_ws(s, i);
    match spec_parse_string(s, i1) {
        None => None,
        Some((key, i2)) => {
            let i3 = spec_skip_ws(s, i2);
            if !(i3 < s.len() && s[i3] == ':') {
                None
            } else {
                match spec_parse_number(s, spec_skip_ws(s, i3 + 1)) {
                    None => None,
                    Some((v, i5)) => {
                        let i6 = spec_skip_ws(s, i5);
                        let more = i6 < s.len() && s[i6] == ',';
                        let done = i6 < s.len() && s[i6] == '}';
                        if key == "x"@ && x is None {
                            if more {
                                spec_parse_circle_members(s, i6 + 1, Some(v), y, r)
                            } else if done && y is Some && r is Some {
                                Some((LevelCircleModel { x: v, y: y->0, r: r->0 }, i6 + 1))
                            } else {
                                None
                            }
                        } else if key == "y"@ && y is None {
                            if more {
                                spec_parse_circle_members(s, i6 + 1, x, Some(v), r)
                            } else if done && x is Some && r is Some {
                                Some((LevelCircleModel { x: x->0, y: v, r: r->0 }, i6 + 1))
                            } else {
                                None
                            }
                        } else if key == "r"@ && r is None {
                            if more {
                                spec_parse_circle_members(s, i6 + 1, x, y, Some(v))
                            } else if done && x is Some && y is Some {
                                Some((LevelCircleModel { x: x->0, y: y->0, r: v }, i6 + 1))
                            } else {
                                None
                            }
                        } else {
                            None
                        }
                    },
                }
            }
        },
    }
}

/// Parse a `{"x":N,"y":N,"r":N}` object at `i`.
pub open spec fn spec_parse_circle(s: Seq<char>, i: int) -> Option<(LevelCircleModel, int)> {
    let i1 = spec_skip_ws(s, i);
    if i1 < s.len() && s[i1] == '{' {
        spec_parse_circle_members(s, i1 + 1, None, None, None)
    } else {
        None
    }
}

/// Parse the members of a three-field image object until the closing
/// brace; `filename` is a string, `x` and `y` are numbers, each exactly
/// once.
pub open spec fn spec_parse_image_members(
    s: Seq<char>,
    i: int,
    f: Option<Seq<char>>,
    x: Option<i64>,
    y: Option<i64>,
) -> Option<(ImageView, int)>
    decreases (if f is None { 1int } else { 0int }) + (if x is None { 1int } else { 0int }) + (
    if y is None { 1int } else { 0int })
{
    let i1 = spec_skip_ws(s, i);
    match spec_parse_string(s, i1) {
        None => None,
        Some((key, i2)) => {
            let i3 = spec_skip_ws(s, i2);
            if !(i3 < s.len() && s[i3] == ':') {
                None
            } else {
                let i4 = spec_skip_ws(s, i3 + 1);
                if key == "filename"@ && f is None {
                    match spec_parse_string(s, i4) {
                        None => None,
                        Some((name, i5)) => {
                            let i6 = spec_skip_ws(s, i5);
                            if i6 < s.len() && s[i6] == ',' {
                                spec_parse_image_members(s, i6 + 1, Some(name), x, y)
                            } else if i6 < s.len() && s[i6] == '}' && x is Some && y is Some {
                                Some((ImageView { filename: name, x: x->0, y: y->0 }, i6 + 1))
                            } else {
                                None
                            }
                        },
                    }
                } else if key == "x"@ && x is None {
                    match spec_parse_number(s, i4) {
                        None => None,
                        Some((v, i5)) => {
                            let i6 = spec_skip_ws(s, i5);
                            if i6 < s.len() && s[i6] == ',' {
                                spec_parse_image_members(s, i6 + 1, f, Some(v), y)
                            } else if i6 < s.len() && s[i6] == '}' && f is Some && y is Some {
                                Some((ImageView { filename: f->0, x: v, y: y->0 }, i6 + 1))
                            } else {
                                None
                            }
                        },
                    }
                } else if key == "y"@ && y is None {
                    match spec_parse_number(s, i4) {
                        None => None,
                        Some((v, i5)) => {
                            let i6 = spec_skip_ws(s, i5);
                            if i6 < s.len() && s[i6] == ',' {
                                spec_parse_image_members(s, i6 + 1, f, x, Some(v))
                            } else if i6 < s.len() && s[i6] == '}' && f is Some && x is Some {
                                Some((ImageView { filename: f->0, x: x->0, y: v }, i6 + 1))
                            } else {
                                None
                            }
                        },
                    }
                } else {
                    None
                }
            }
        },
    }
}

/// Parse a `{"filename":S,"x":N,"y":N}` object at `i`.
pub open spec fn spec_parse_image(s: Seq<char>, i: int) -> Option<(ImageView, int)> {
    let i1 = spec_skip_ws(s, i);
    if i1 < s.len() && s[i1] == '{' {
        spec_parse_image_members(s, i1 + 1, None, None, None)
    } else {
        None
    }
}

/// Parse the elements of a non-empty block array, starting at an element.
/// A parse that fails to advance is rejected, which keeps the recursion
/// well-founded; a successful element parse always advances.
pub open spec fn spec_parse_blocks_items(
    s: Seq<char>,
    i: int,
    acc: Seq<LevelBlockModel>,
) -> Option<(Seq<LevelBlockModel>, int)>
    decreases s.len() - i when 0 <= i <= s.len()
{
    match spec_parse_block(s, i) {
        None => None,
        Some((b, j)) => {
            let j1 = spec_skip_ws(s, j);
            if j1 < s.len() && s[j1] == ',' {
                if j1 + 1 <= i || j1 + 1 > s.len() {
                    None
                } else {
                    spec_parse_blocks_items(s, j1 + 1, acc.push(b))
                }
            } else if j1 < s.len() && s[j1] == ']' {
                Some((acc.push(b), j1 + 1))
            } else {
                None
            }
        },
    }
}

/// Parse a `[ ... ]` array of block objects at `i`.
pub open spec fn spec_parse_blocks(s: Seq<char>, i: int) -> Option<(Seq<LevelBlockModel>, int)> {
    let i1 = spec_skip_ws(s, i);
    if i1 < s.len() && s[i1] == '[' {
        let i2 = spec_skip_ws(s, i1 + 1);
        if i2 < s.len() && s[i2] == ']' {
            Some((Seq::empty(), i2 + 1))
        } else {
            spec_parse_blocks_items(s, i1 + 1, Seq::empty())
        }
    } else {
        None
    }
}

/// Parse the elements of a non-empty circle array.
pub open spec fn spec_parse_circles_items(
    s: Seq<char>,
    i: int,
    acc: Seq<LevelCircleModel>,
) -> Option<(Seq<LevelCircleModel>, int)>
    decreases s.len() - i when 0 <= i <= s.len()
{
    match spec_parse_circle(s, i) {
        None => None,
        Some((c, j)) => {
            let j1 = spec_skip_ws(s, j);
            if j1 < s.len() && s[j1] == ',' {
                if j1 + 1 <= i || j1 + 1 > s.len() {
                    None
                } else {
                    spec_parse_circles_items(s, j1 + 1, acc.push(c))
                }
            } else if j1 < s.len() && s[j1] == ']' {
                Some((acc.push(c), j1 + 1))
            } else {
                None
            }
        },
    }
}

/// Parse a `[ ... ]` array of circle objects at `i`.
pub open spec fn spec_parse_circles(s: Seq<char>, i: int) -> Option<(Seq<LevelCircleModel>, int)> {
    let i1 = spec_skip_ws(s, i);
    if i1 < s.len() && s[i1] == '[' {
        let i2 = spec_skip_ws(s, i1 + 1);
        if i2 < s.len() && s[i2] == ']' {
            Some((Seq::empty(), i2 + 1))
        } else {
            spec_parse_circles_items(s, i1 + 1, Seq::empty())
        }
    } else {
        None
    }
}

/// Parse the elements of a non-empty image array.
pub open spec fn spec_parse_images_items(
    s: Seq<char>,
    i: int,
    acc: Seq<ImageView>,
) -> Option<(Seq<ImageView>, int)>
    decreases s.len() - i when 0 <= i <= s.len()
{
    match spec_parse_image(s, i) {
        None => None,
        Some((im, j)) => {
            let j1 = spec_skip_ws(s, j);
            if j1 < s.len() && s[j1] == ',' {
                if j1 + 1 <= i || j1 + 1 > s.len() {
                    None
                } else {
                    spec_parse_images_items(s, j1 + 1, acc.push(im))
                }
            } else if j1 < s.len() && s[j1] == ']' {
                Some((acc.push(im), j1 + 1))
            } else {
                None
            }
        },
    }
}

/// Parse a `[ ... ]` array of image objects at `i`.
pub open spec fn spec_parse_images(s: Seq<char>, i: int) -> Option<(Seq<ImageView>, int)> {
    let i1 = spec_skip_ws(s, i);
    if i1 < s.len() && s[i1] == '[' {
        let i2 = spec_skip_ws(s, i1 + 1);
        if i2 < s.len() && s[i2] == ']' {
            Some((Seq::empty(), i2 + 1))
        } else {
            spec_parse_images_items(s, i1 + 1, Seq::empty())
        }
    } else {
        None
    }
}

/// Parse the five members of the top-level document object until the
/// closing brace; each must appear exactly once, in any order.
pub open spec fn spec_parse_level_members(
    s: Seq<char>,
    i: int,
    p: Option<LevelPlayerModel>,
    g: Option<LevelGoalModel>,
    bs: Option<Seq<LevelBlockModel>>,
    cs: Option<Seq<LevelCircleModel>>,
    ims: Option<Seq<ImageView>>,
) -> Option<(LevelView, int)>
    decreases (if p is None { 1int } else { 0int }) + (if g is None { 1int } else { 0int }) + (
    if bs is None { 1int } else { 0int }) + (if cs is None { 1int } else { 0int }) + (if ims
        is None { 1int } else { 0int }), 0int
{
    let i1 = spec_skip_ws(s, i);
    match spec_parse_string(s, i1) {
        None => None,
        Some((key, i2)) => {
            let i3 = spec_skip_ws(s, i2);
            if !(i3 < s.len() && s[i3] == ':') {
                None
            } else {
                let i4 = i3 + 1;
                if key == "player"@ && p is None {
                    match spec_parse_point(s, i4) {
                        None => None,
                        Some(((x, y), i5)) => spec_parse_level_next(
                            s,
                            i5,
                            Some(LevelPlayerModel { x, y }),
                            g,
                            bs,
                            cs,
                            ims,
                        ),
                    }
                } else if key == "goal"@ && g is None {
                    match spec_parse_point(s, i4) {
                        None => None,
                        Some(((x, y), i5)) => spec_parse_level_next(
                            s,
                            i5,
                            p,
                            Some(LevelGoalModel { x, y }),
                            bs,
                            cs,
                            ims,
                        ),
                    }
                } else if key == "danger_blocks"@ && bs is None {
                    match spec_parse_blocks(s, i4) {
                        None => None,
                        Some((v, i5)) => spec_parse_level_next(s, i5, p, g, Some(v), cs, ims),
                    }
                } else if key == "danger_circles"@ && cs is None {
                    match spec_parse_circles(s, i4) {
                        None => None,
                        Some((v, i5)) => spec_parse_level_next(s, i5, p, g, bs, Some(v), ims),
                    }
                } else if key == "images"@ && ims is None {
                    match spec_parse_images(s, i4) {
                        None => None,
                        Some((v, i5)) => spec_parse_level_next(s, i5, p, g, bs, cs, Some(v)),
                    }
                } else {
                    None
                }
            }
        },
    }
}

/// After one parsed member: continue at a comma, or close the document
/// object once every member has appeared.
pub open spec fn spec_parse_level_next(
    s: Seq<char>,
    i: int,
    p: Option<LevelPlayerModel>,
    g: Option<LevelGoalModel>,
    bs: Option<Seq<LevelBlockModel>>,
    cs: Option<Seq<LevelCircleModel>>,
    ims: Option<Seq<ImageView>>,
) -> Option<(LevelView, int)>
    decreases (if p is None { 1int } else { 0int }) + (if g is None { 1int } else { 0int }) + (
    if bs is None { 1int } else { 0int }) + (if cs is None { 1int } else { 0int }) + (if ims
        is None { 1int } else { 0int }), 1int
{
    let i6 = spec_skip_ws(s, i);
    if i6 < s.len() && s[i6] == ',' {
        spec_parse_level_members(s, i6 + 1, p, g, bs, cs, ims)
    } else if i6 < s.len() && s[i6] == '}' && p is Some && g is Some && bs is Some && cs is Some
        && ims is Some {
        Some(
            (
                LevelView {
                    player: p->0,
                    goal: g->0,
                    blocks: bs->0,
                    circles: cs->0,
                    images: ims->0,
                },
                i6 + 1,
            ),
        )
    } else {
        None
    }
}

/// Parse a whole document: one top-level object and nothing but
/// whitespace after it.
pub open spec fn spec_parse_level(s: Seq<char>) -> Option<LevelView> {
    let i1 = spec_skip_ws(s, 0);
    if i1 < s.len() && s[i1] == '{' {
        match spec_parse_level_members(s, i1 + 1, None, None, None, None, None) {
            None => None,
            Some((v, j)) => {
                if spec_skip_ws(s, j) == s.len() {
                    Some(v)
                } else {
                    None
                }
            },
        }
    } else {
        None
    }
}

// ---------------------------------------------------------------------
// Serializer specification (canonical form: declaration order, no
// whitespace)
// ---------------------------------------------------------------------

/// A quoted string.
pub open spec fn spec_ser_string(content: Seq<char>) -> Seq<char> {
    seq!['"'] + content + seq!['"']
}

/// A `{"x":N,"y":N}` object.
pub open spec fn spec_ser_point(x: i64, y: i64) -> Seq<char> {
    "{\"x\":"@ + spec_ser_num(x as int) + ",\"y\":"@ + spec_ser_num(y as int) + "}"@
}

/// A `{"x":N,"y":N,"w":N,"h":N}` object.
pub open spec fn spec_ser_block(b: LevelBlockModel) -> Seq<char> {
    "{\"x\":"@ + spec_ser_num(b.x as int) + ",\"y\":"@ + spec_ser_num(b.y as int) + ",\"w\":"@
        + spec_ser_num(b.w as int) + ",\"h\":"@ + spec_ser_num(b.h as int) + "}"@
}

/// A `{"x":N,"y":N,"r":N}` object.
pub open spec fn spec_ser_circle(c: LevelCircleModel) -> Seq<char> {
    "{\"x\":"@ + spec_ser_num(c.x as int) + ",\"y\":"@ + spec_ser_num(c.y as int) + ",\"r\":"@
        + spec_ser_num(c.r as int) + "}"@
}

/// A `{"filename":S,"x":N,"y":N}` object.
pub open spec fn spec_ser_image(im: ImageView) -> Seq<char> {
    "{\"filename\":"@ + spec_ser_string(im.filename) + ",\"x\":"@ + spec_ser_num(im.x as int)
        + ",\"y\":"@ + spec_ser_num(im.y as int) + "}"@
}

/// The comma-separated elements of a block array.
pub open spec fn spec_ser_blocks_items(v: Seq<LevelBlockModel>) -> Seq<char>
    decreases v.len(),
{
    if v.len() == 0 {
        Seq::empty()
    } else if v.len() == 1 {
        spec_ser_block(v[0])
    } else {
        spec_ser_block(v[0]) + ","@ + spec_ser_blocks_items(v.drop_first())
    }
}

/// The comma-separated elements of a circle array.
pub open spec fn spec_ser_circles_items(v: Seq<LevelCircleModel>) -> Seq<char>
    decreases v.len(),
{
    if v.len() == 0 {
        Seq::empty()
    } else if v.len() == 1 {
        spec_ser_circle(v[0])
    } else {
        spec_ser_circle(v[0]) + ","@ + spec_ser_circles_items(v.drop_first())
    }
}

/// The comma-separated elements of an image array.
pub open spec fn spec_ser_images_items(v: Seq<ImageView>) -> Seq<char>
    decreases v.len(),
{
    if v.len() == 0 {
        Seq::empty()
    } else if v.len() == 1 {
        spec_ser_image(v[0])
    } else {
        spec_ser_image(v[0]) + ","@ + spec_ser_images_items(v.drop_first())
    }
}

/// A whole document in canonical form.
pub open spec fn spec_ser_level(v: LevelView) -> Seq<char> {
    "{\"player\":"@ + spec_ser_point(v.player.x, v.player.y) + ",\"goal\":"@ + spec_ser_point(
        v.goal.x,
        v.goal.y,
    ) + ",\"danger_blocks\":["@ + spec_ser_blocks_items(v.blocks) + "],\"danger_circles\":["@
        + spec_ser_circles_items(v.circles) + "],\"images\":["@ + spec_ser_images_items(v.images)
        + "]}"@
}

// ---------------------------------------------------------------------
// Round trip: canonical text parses back to the exact values
// ---------------------------------------------------------------------

/// One character of an embedded rendering, read off the containing text.
proof fn lemma_at(s: Seq<char>, i: int, w: Seq<char>, t: int)
    requires
        0 <= i,
        i + w.len() <= s.len(),
        s.subrange(i, i + w.len()) == w,
        0 <= t < w.len(),
    ensures
        s[i + t] == w[t],
{
    assert(s.subrange(i, i + w.len())[t] == s[i + t]);
}

/// Skipping whitespace at a non-whitespace character goes nowhere.
proof fn lemma_skip_ws_nop(s: Seq<char>, i: int)
    requires
        0 <= i <= s.len(),
        i == s.len() || !is_ws(s[i]),
    ensures
        spec_skip_ws(s, i) == i,
{
}

/// A rendered number starts with a minus sign or a digit — never with
/// whitespace, a quote, or a brace.
proof fn lemma_ser_num_first(n: int)
    ensures
        spec_ser_num(n).len() >= 1,
        !is_ws(spec_ser_num(n)[0]),
{
    let a = if n < 0 {
        -n
    } else {
        n
    };
    lemma_ser_nat_props((a / 1000) as nat);
    if n >= 0 {
        assert(is_digit(spec_ser_num(n)[0]));
    }
}

/// Where a string body ends: `j` is the first unacceptable character
/// after a run of acceptable ones.
proof fn lemma_string_body_end_exact(s: Seq<char>, i: int, j: int)
    requires
        0 <= i <= j <= s.len(),
        forall|k: int| i <= k < j ==> filename_char_ok(#[trigger] s[k]),
        j == s.len() || !filename_char_ok(s[j]),
    ensures
        string_body_end(s, i) == j,
    decreases j - i,
{
    if i < j {
        lemma_string_body_end_exact(s, i + 1, j);
    }
}

/// A rendered string embedded at position `i` parses back to exactly its
/// content.
proof fn lemma_string_roundtrip_at(s: Seq<char>, i: int, content: Seq<char>)
    requires
        0 <= i,
        i + content.len() + 2 <= s.len(),
        crate::level::filename_ok(content),
        s.subrange(i, i + content.len() + 2) == spec_ser_string(content),
    ensures
        spec_parse_string(s, i) == Some((content, i + content.len() + 2)),
{
    let w = spec_ser_string(content);
    let cl = content.len() as int;
    lemma_at(s, i, w, 0);
    assert(s[i + 0] == '"');
    assert forall|k: int| i + 1 <= k < i + 1 + cl implies filename_char_ok(#[trigger] s[k]) by {
        lemma_at(s, i, w, k - i);
        assert(w[k - i] == content[k - i - 1]);
    }
    lemma_at(s, i, w, cl + 1);
    assert(s[i + (cl + 1)] == '"');
    assert(!filename_char_ok(s[i + 1 + cl]));
    lemma_string_body_end_exact(s, i + 1, i + 1 + cl);
    assert forall|k: int| 0 <= k < cl implies s.subrange(i + 1, i + 1 + cl)[k] == content[k] by {
        lemma_at(s, i, w, k + 1);
    }
    assert(s.subrange(i + 1, i + 1 + cl) =~= content);
}

/// One canonical `"key":number` member at position `p`, followed by `,`
/// or `}`: each token parses exactly where the member grammar looks for
/// it.
proof fn lemma_num_member_at(s: Seq<char>, p: int, key: Seq<char>, n: int)
    requires
        0 <= p,
        crate::level::filename_ok(key),
        -LEVEL_COORD_LIMIT <= n <= LEVEL_COORD_LIMIT,
        p + key.len() + 3 + spec_ser_num(n).len() < s.len(),
        s.subrange(p, p + (key.len() + 2)) == spec_ser_string(key),
        s[p + (key.len() + 2)] == ':',
        s.subrange(p + (key.len() + 3), (p + (key.len() + 3)) + spec_ser_num(n).len())
            == spec_ser_num(n),
        !is_digit(s[p + (key.len() + 3) + spec_ser_num(n).len()]),
        s[p + (key.len() + 3) + spec_ser_num(n).len()] != '.',
        !is_ws(s[p + (key.len() + 3) + spec_ser_num(n).len()]),
    ensures
        spec_skip_ws(s, p) == p,
        spec_parse_string(s, p) == Some((key, p + (key.len() + 2))),
        spec_skip_ws(s, p + (key.len() + 2)) == p + (key.len() + 2),
        spec_parse_number(s, spec_skip_ws(s, p + (key.len() + 3))) == Some(
            (n as i64, p + (key.len() + 3) + spec_ser_num(n).len()),
        ),
        spec_skip_ws(s, p + (key.len() + 3) + spec_ser_num(n).len()) == p + (key.len() + 3)
            + spec_ser_num(n).len(),
{
    let kl = key.len() as int;
    lemma_at(s, p, spec_ser_string(key), 0);
    assert(s[p + 0] == '"');
    lemma_skip_ws_nop(s, p);
    lemma_string_roundtrip_at(s, p, key);
    lemma_skip_ws_nop(s, p + (kl + 2));
    lemma_ser_num_first(n);
    lemma_at(s, p + (kl + 3), spec_ser_num(n), 0);
    lemma_skip_ws_nop(s, p + (kl + 3));
    lemma_number_roundtrip_at(s, p + (kl + 3), n);
    lemma_skip_ws_nop(s, p + (kl + 3) + spec_ser_num(n).len());
}

/// A slice of an embedded rendering, read off the containing text.
proof fn lemma_subrange_extract(s: Seq<char>, i: int, w: Seq<char>, a: int, b: int, piece: Seq<char>)
    requires
        0 <= i,
        i + w.len() <= s.len(),
        s.subrange(i, i + w.len()) == w,
        0 <= a <= b <= w.len(),
        w.subrange(a, b) == piece,
    ensures
        s.subrange(i + a, (i + a) + (b - a)) == piece,
{
    assert forall|t: int|
        0 <= t < b - a implies s.subrange(i + a, (i + a) + (b - a))[t] == piece[t] by {
        lemma_at(s, i, w, a + t);
        assert(w.subrange(a, b)[t] == w[a + t]);
        assert(s.subrange(i + a, (i + a) + (b - a))[t] == s[(i + a) + t]);
    }
    assert(s.subrange(i + a, (i + a) + (b - a)) =~= piece);
}

/// A rendered `{"x":N,"y":N}` object embedded at position `i` parses back
/// to exactly its two values.
#[verifier::rlimit(100)]
proof fn lemma_point_roundtrip_at(s: Seq<char>, i: int, x: i64, y: i64)
    requires
        level_coord_ok(x),
        level_coord_ok(y),
        0 <= i,
        i + spec_ser_point(x, y).len() <= s.len(),
        s.subrange(i, i + spec_ser_point(x, y).len()) == spec_ser_point(x, y),
    ensures
        spec_parse_point(s, i) == Some(((x, y), i + spec_ser_point(x, y).len())),
{
    let w = spec_ser_point(x, y);
    let nx = spec_ser_num(x as int).len() as int;
    let ny = spec_ser_num(y as int).len() as int;
    reveal_strlit("{\"x\":");
    reveal_strlit(",\"y\":");
    reveal_strlit("}");
    reveal_strlit("x");
    reveal_strlit("y");
    assert(w.len() == 11 + nx + ny);
    // "{"x":" then the first number
    lemma_at(s, i, w, 0);
    lemma_skip_ws_nop(s, i);
    lemma_at(s, i, w, 1);
    lemma_at(s, i, w, 2);
    lemma_at(s, i, w, 3);
    lemma_at(s, i, w, 4);
    assert(s[i + 2] == 'x');
    lemma_skip_ws_nop(s, i + 1);
    assert(filename_char_ok(s[i + 2]));
    lemma_string_body_end_exact(s, i + 2, i + 3);
    assert(s.subrange(i + 2, i + 3) =~= "x"@) by {
        lemma_at(s, i, w, 2);
        assert(s.subrange(i + 2, i + 3)[0] == s[(i + 2) + 0]);
    }
    assert(spec_parse_string(s, i + 1) == Some(("x"@, i + 4)));
    lemma_skip_ws_nop(s, i + 4);
    assert(s.subrange(i + 5, (i + 5) + nx) =~= spec_ser_num(x as int)) by {
        assert forall|t: int| 0 <= t < nx implies s.subrange(i + 5, (i + 5) + nx)[t]
            == spec_ser_num(x as int)[t] by {
            lemma_at(s, i, w, 5 + t);
            assert(s.subrange(i + 5, (i + 5) + nx)[t] == s[(i + 5) + t]);
        }
    }
    lemma_at(s, i, w, 5 + nx);
    assert(s[i + (5 + nx)] == ',');
    lemma_ser_num_first(x as int);
    lemma_at(s, i, w, 5);
    lemma_skip_ws_nop(s, i + 5);
    lemma_number_roundtrip_at(s, i + 5, x as int);
    lemma_skip_ws_nop(s, i + (5 + nx));
    // ","y":" then the second number
    let m2 = i + (6 + nx);
    lemma_at(s, i, w, 6 + nx);
    lemma_at(s, i, w, 7 + nx);
    lemma_at(s, i, w, 8 + nx);
    lemma_at(s, i, w, 9 + nx);
    assert(s[i + (6 + nx)] == '"');
    assert(s[i + (7 + nx)] == 'y');
    assert(s[i + (8 + nx)] == '"');
    assert(s[i + (9 + nx)] == ':');
    lemma_skip_ws_nop(s, m2);
    assert(filename_char_ok(s[i + (7 + nx)]));
    lemma_string_body_end_exact(s, i + (7 + nx), i + (8 + nx));
    assert(s.subrange(i + (7 + nx), i + (8 + nx)) =~= "y"@) by {
        assert(s.subrange(i + (7 + nx), i + (8 + nx))[0] == s[(i + (7 + nx)) + 0]);
    }
    assert(spec_parse_string(s, m2) == Some(("y"@, i + (9 + nx))));
    lemma_skip_ws_nop(s, i + (9 + nx));
    assert(s.subrange(i + (10 + nx), (i + (10 + nx)) + ny) =~= spec_ser_num(y as int)) by {
        assert forall|t: int| 0 <= t < ny implies s.subrange(i + (10 + nx), (i + (10 + nx)) + ny)[t]
            == spec_ser_num(y as int)[t] by {
            lemma_at(s, i, w, 10 + nx + t);
            assert(s.subrange(i + (10 + nx), (i + (10 + nx)) + ny)[t] == s[(i + (10 + nx)) + t]);
        }
    }
    lemma_at(s, i, w, 10 + nx + ny);
    assert(s[i + (10 + nx + ny)] == '}');
    lemma_ser_num_first(y as int);
    lemma_at(s, i, w, 10 + nx);
    lemma_skip_ws_nop(s, i + (10 + nx));
    lemma_number_roundtrip_at(s, i + (10 + nx), y as int);
    lemma_skip_ws_nop(s, i + (10 + nx + ny));
    assert("x"@ != "y"@) by {
        assert("x"@[0] == 'x' && "y"@[0] == 'y');
    }
    reveal_with_fuel(spec_parse_xy_members, 3);
    assert(spec_parse_xy_members(s, m2, Some(x), None) == Some(((x, y), i + (11 + nx + ny))));
    assert(spec_parse_xy_members(s, i + 1, None, None) == Some(((x, y), i + (11 + nx + ny))));
}


/// A rendered `{"x":N,"y":N,"w":N,"h":N}` object embedded at position
/// `i` parses back to exactly its four values.
#[verifier::spinoff_prover]
#[verifier::rlimit(100)]
proof fn lemma_block_roundtrip_at(s: Seq<char>, i: int, b: LevelBlockModel)
    requires
        block_ok(b),
        0 <= i,
        i + spec_ser_block(b).len() <= s.len(),
        s.subrange(i, i + spec_ser_block(b).len()) == spec_ser_block(b),
    ensures
        spec_parse_block(s, i) == Some((b, i + spec_ser_block(b).len())),
{
    let w = spec_ser_block(b);
    let n1 = spec_ser_num(b.x as int).len() as int;
    let n2 = spec_ser_num(b.y as int).len() as int;
    let n3 = spec_ser_num(b.w as int).len() as int;
    let n4 = spec_ser_num(b.h as int).len() as int;
    reveal_strlit("{\"x\":");
    reveal_strlit(",\"y\":");
    reveal_strlit(",\"w\":");
    reveal_strlit(",\"h\":");
    reveal_strlit("}");
    reveal_strlit("x");
    reveal_strlit("y");
    reveal_strlit("w");
    reveal_strlit("h");
    assert(w.len() == 21 + n1 + n2 + n3 + n4);
    lemma_at(s, i, w, 0);
    assert(s[i + 0] == '{');
    lemma_skip_ws_nop(s, i);
    // member "x"
    assert(w.subrange(1, 4) =~= spec_ser_string("x"@));
    lemma_subrange_extract(s, i, w, 1, 4, spec_ser_string("x"@));
    lemma_at(s, i, w, 4);
    assert(w.subrange(5, 5 + n1) =~= spec_ser_num(b.x as int));
    lemma_subrange_extract(s, i, w, 5, 5 + n1, spec_ser_num(b.x as int));
    lemma_at(s, i, w, 5 + n1);
    assert(s[i + (5 + n1)] == ',');
    lemma_num_member_at(s, i + 1, "x"@, b.x as int);
    // member "y"
    let p2 = i + (6 + n1);
    assert(w.subrange(6 + n1, 9 + n1) =~= spec_ser_string("y"@));
    lemma_subrange_extract(s, i, w, 6 + n1, 9 + n1, spec_ser_string("y"@));
    lemma_at(s, i, w, 9 + n1);
    assert(w.subrange(10 + n1, 10 + n1 + n2) =~= spec_ser_num(b.y as int));
    lemma_subrange_extract(s, i, w, 10 + n1, 10 + n1 + n2, spec_ser_num(b.y as int));
    lemma_at(s, i, w, 10 + n1 + n2);
    assert(s[i + (10 + n1 + n2)] == ',');
    lemma_num_member_at(s, p2, "y"@, b.y as int);
    // member "w"
    let p3 = i + (11 + n1 + n2);
    assert(w.subrange(11 + n1 + n2, 14 + n1 + n2) =~= spec_ser_string("w"@));
    lemma_subrange_extract(s, i, w, 11 + n1 + n2, 14 + n1 + n2, spec_ser_string("w"@));
    lemma_at(s, i, w, 14 + n1 + n2);
    assert(w.subrange(15 + n1 + n2, 15 + n1 + n2 + n3) =~= spec_ser_num(b.w as int));
    lemma_subrange_extract(s, i, w, 15 + n1 + n2, 15 + n1 + n2 + n3, spec_ser_num(b.w as int));
    lemma_at(s, i, w, 15 + n1 + n2 + n3);
    assert(s[i + (15 + n1 + n2 + n3)] == ',');
    lemma_num_member_at(s, p3, "w"@, b.w as int);
    // member "h"
    let p4 = i + (16 + n1 + n2 + n3);
    assert(w.subrange(16 + n1 + n2 + n3, 19 + n1 + n2 + n3) =~= spec_ser_string("h"@));
    lemma_subrange_extract(s, i, w, 16 + n1 + n2 + n3, 19 + n1 + n2 + n3, spec_ser_string("h"@));
    lemma_at(s, i, w, 19 + n1 + n2 + n3);
    assert(w.subrange(20 + n1 + n2 + n3, 20 + n1 + n2 + n3 + n4) =~= spec_ser_num(b.h as int));
    lemma_subrange_extract(s, i, w, 20 + n1 + n2 + n3, 20 + n1 + n2 + n3 + n4,
        spec_ser_num(b.h as int));
    lemma_at(s, i, w, 20 + n1 + n2 + n3 + n4);
    assert(s[i + (20 + n1 + n2 + n3 + n4)] == '}');
    lemma_num_member_at(s, p4, "h"@, b.h as int);
    // the four keys are distinct single characters
    assert("x"@[0] == 'x' && "y"@[0] == 'y' && "w"@[0] == 'w' && "h"@[0] == 'h');
    // evaluate the member chain
    reveal_with_fuel(spec_parse_block_members, 5);
    assert(spec_parse_block_members(s, p4, Some(b.x), Some(b.y), Some(b.w), None) == Some(
        (b, i + w.len()),
    ));
    assert(spec_parse_block_members(s, p3, Some(b.x), Some(b.y), None, None) == Some(
        (b, i + w.len()),
    ));
    assert(spec_parse_block_members(s, p2, Some(b.x), None, None, None) == Some(
        (b, i + w.len()),
    ));
    assert(spec_parse_block_members(s, i + 1, None, None, None, None) == Some((b, i + w.len())));
}

/// A rendered `{"x":N,"y":N,"r":N}` object embedded at position `i`
/// parses back to exactly its three values.
#[verifier::spinoff_prover]
#[verifier::rlimit(100)]
proof fn lemma_circle_roundtrip_at(s: Seq<char>, i: int, c: LevelCircleModel)
    requires
        circle_ok(c),
        0 <= i,
        i + spec_ser_circle(c).len() <= s.len(),
        s.subrange(i, i + spec_ser_circle(c).len()) == spec_ser_circle(c),
    ensures
        spec_parse_circle(s, i) == Some((c, i + spec_ser_circle(c).len())),
{
    let w = spec_ser_circle(c);
    let n1 = spec_ser_num(c.x as int).len() as int;
    let n2 = spec_ser_num(c.y as int).len() as int;
    let n3 = spec_ser_num(c.r as int).len() as int;
    reveal_strlit("{\"x\":");
    reveal_strlit(",\"y\":");
    reveal_strlit(",\"r\":");
    reveal_strlit("}");
    reveal_strlit("x");
    reveal_strlit("y");
    reveal_strlit("r");
    assert(w.len() == 16 + n1 + n2 + n3);
    lemma_at(s, i, w, 0);
    assert(s[i + 0] == '{');
    lemma_skip_ws_nop(s, i);
    // member "x"
    assert(w.subrange(1, 4) =~= spec_ser_string("x"@));
    lemma_subrange_extract(s, i, w, 1, 4, spec_ser_string("x"@));
    lemma_at(s, i, w, 4);
    assert(w.subrange(5, 5 + n1) =~= spec_ser_num(c.x as int));
    lemma_subrange_extract(s, i, w, 5, 5 + n1, spec_ser_num(c.x as int));
    lemma_at(s, i, w, 5 + n1);
    assert(s[i + (5 + n1)] == ',');
    lemma_num_member_at(s, i + 1, "x"@, c.x as int);
    // member "y"
    let p2 = i + (6 + n1);
    assert(w.subrange(6 + n1, 9 + n1) =~= spec_ser_string("y"@));
    lemma_subrange_extract(s, i, w, 6 + n1, 9 + n1, spec_ser_string("y"@));
    lemma_at(s, i, w, 9 + n1);
    assert(w.subrange(10 + n1, 10 + n1 + n2) =~= spec_ser_num(c.y as int));
    lemma_subrange_extract(s, i, w, 10 + n1, 10 + n1 + n2, spec_ser_num(c.y as int));
    lemma_at(s, i, w, 10 + n1 + n2);
    assert(s[i + (10 + n1 + n2)] == ',');
    lemma_num_member_at(s, p2, "y"@, c.y as int);
    // member "r"
    let p3 = i + (11 + n1 + n2);
    assert(w.subrange(11 + n1 + n2, 14 + n1 + n2) =~= spec_ser_string("r"@));
    lemma_subrange_extract(s, i, w, 11 + n1 + n2, 14 + n1 + n2, spec_ser_string("r"@));
    lemma_at(s, i, w, 14 + n1 + n2);
    assert(w.subrange(15 + n1 + n2, 15 + n1 + n2 + n3) =~= spec_ser_num(c.r as int));
    lemma_subrange_extract(s, i, w, 15 + n1 + n2, 15 + n1 + n2 + n3, spec_ser_num(c.r as int));
    lemma_at(s, i, w, 15 + n1 + n2 + n3);
    assert(s[i + (15 + n1 + n2 + n3)] == '}');
    lemma_num_member_at(s, p3, "r"@, c.r as int);
    assert("x"@[0] == 'x' && "y"@[0] == 'y' && "r"@[0] == 'r');
    reveal_with_fuel(spec_parse_circle_members, 4);
    assert(spec_parse_circle_members(s, p3, Some(c.x), Some(c.y), None) == Some(
        (c, i + w.len()),
    ));
    assert(spec_parse_circle_members(s, p2, Some(c.x), None, None) == Some((c, i + w.len())));
    assert(spec_parse_circle_members(s, i + 1, None, None, None) == Some((c, i + w.len())));
}


/// One canonical `"key":"string"` member at position `p`: each token
/// parses exactly where the member grammar looks for it.
proof fn lemma_str_member_at(s: Seq<char>, p: int, key: Seq<char>, content: Seq<char>)
    requires
        0 <= p,
        crate::level::filename_ok(key),
        crate::level::filename_ok(content),
        p + key.len() + 3 + content.len() + 2 < s.len(),
        s.subrange(p, p + (key.len() + 2)) == spec_ser_string(key),
        s[p + (key.len() + 2)] == ':',
        s.subrange(p + (key.len() + 3), (p + (key.len() + 3)) + (content.len() + 2))
            == spec_ser_string(content),
        !is_ws(s[p + (key.len() + 3) + (content.len() + 2)]),
    ensures
        spec_skip_ws(s, p) == p,
        spec_parse_string(s, p) == Some((key, p + (key.len() + 2))),
        spec_skip_ws(s, p + (key.len() + 2)) == p + (key.len() + 2),
        spec_parse_string(s, spec_skip_ws(s, p + (key.len() + 3))) == Some(
            (content, p + (key.len() + 3) + (content.len() + 2)),
        ),
        spec_skip_ws(s, p + (key.len() + 3) + (content.len() + 2)) == p + (key.len() + 3) + (
        content.len() + 2),
{
    let kl = key.len() as int;
    let cl = content.len() as int;
    lemma_at(s, p, spec_ser_string(key), 0);
    assert(s[p + 0] == '"');
    lemma_skip_ws_nop(s, p);
    lemma_string_roundtrip_at(s, p, key);
    lemma_skip_ws_nop(s, p + (kl + 2));
    lemma_at(s, p + (kl + 3), spec_ser_string(content), 0);
    assert(s[(p + (kl + 3)) + 0] == '"');
    lemma_skip_ws_nop(s, p + (kl + 3));
    lemma_string_roundtrip_at(s, p + (kl + 3), content);
    lemma_skip_ws_nop(s, p + (kl + 3) + (cl + 2));
}

/// A rendered `{"filename":S,"x":N,"y":N}` object embedded at position
/// `i` parses back to exactly its three values.
#[verifier::spinoff_prover]
#[verifier::rlimit(100)]
proof fn lemma_image_roundtrip_at(s: Seq<char>, i: int, im: ImageView)
    requires
        level_coord_ok(im.x),
        level_coord_ok(im.y),
        crate::level::filename_ok(im.filename),
        0 <= i,
        i + spec_ser_image(im).len() <= s.len(),
        s.subrange(i, i + spec_ser_image(im).len()) == spec_ser_image(im),
    ensures
        spec_parse_image(s, i) == Some((im, i + spec_ser_image(im).len())),
{
    let w = spec_ser_image(im);
    let fl = im.filename.len() as int;
    let n1 = spec_ser_num(im.x as int).len() as int;
    let n2 = spec_ser_num(im.y as int).len() as int;
    reveal_strlit("{\"filename\":");
    reveal_strlit(",\"x\":");
    reveal_strlit(",\"y\":");
    reveal_strlit("}");
    reveal_strlit("filename");
    reveal_strlit("x");
    reveal_strlit("y");
    assert(w.len() == 25 + fl + n1 + n2);
    lemma_at(s, i, w, 0);
    assert(s[i + 0] == '{');
    lemma_skip_ws_nop(s, i);
    // member "filename"
    assert("filename"@.len() == 8);
    assert(crate::level::filename_ok("filename"@)) by {
        assert forall|k: int| 0 <= k < 8 implies filename_char_ok(#[trigger] "filename"@[k]) by {
        }
    }
    assert(w.subrange(1, 11) =~= spec_ser_string("filename"@));
    lemma_subrange_extract(s, i, w, 1, 11, spec_ser_string("filename"@));
    lemma_at(s, i, w, 11);
    assert(s[i + 11] == ':');
    assert(w.subrange(12, 12 + (fl + 2)) =~= spec_ser_string(im.filename));
    lemma_subrange_extract(s, i, w, 12, 12 + (fl + 2), spec_ser_string(im.filename));
    lemma_at(s, i, w, 14 + fl);
    assert(s[i + (14 + fl)] == ',');
    lemma_str_member_at(s, i + 1, "filename"@, im.filename);
    // member "x"
    let p2 = i + (15 + fl);
    assert(w.subrange(15 + fl, 18 + fl) =~= spec_ser_string("x"@));
    lemma_subrange_extract(s, i, w, 15 + fl, 18 + fl, spec_ser_string("x"@));
    lemma_at(s, i, w, 18 + fl);
    assert(w.subrange(19 + fl, 19 + fl + n1) =~= spec_ser_num(im.x as int));
    lemma_subrange_extract(s, i, w, 19 + fl, 19 + fl + n1, spec_ser_num(im.x as int));
    lemma_at(s, i, w, 19 + fl + n1);
    assert(s[i + (19 + fl + n1)] == ',');
    lemma_num_member_at(s, p2, "x"@, im.x as int);
    // member "y"
    let p3 = i + (20 + fl + n1);
    assert(w.subrange(20 + fl + n1, 23 + fl + n1) =~= spec_ser_string("y"@));
    lemma_subrange_extract(s, i, w, 20 + fl + n1, 23 + fl + n1, spec_ser_string("y"@));
    lemma_at(s, i, w, 23 + fl + n1);
    assert(w.subrange(24 + fl + n1, 24 + fl + n1 + n2) =~= spec_ser_num(im.y as int));
    lemma_subrange_extract(s, i, w, 24 + fl + n1, 24 + fl + n1 + n2, spec_ser_num(im.y as int));
    lemma_at(s, i, w, 24 + fl + n1 + n2);
    assert(s[i + (24 + fl + n1 + n2)] == '}');
    lemma_num_member_at(s, p3, "y"@, im.y as int);
    assert("x"@.len() == 1 && "y"@.len() == 1);
    reveal_with_fuel(spec_parse_image_members, 4);
    assert(spec_parse_image_members(s, p3, Some(im.filename), Some(im.x), None) == Some(
        (im, i + w.len()),
    ));
    assert(spec_parse_image_members(s, p2, Some(im.filename), None, None) == Some(
        (im, i + w.len()),
    ));
    assert(spec_parse_image_members(s, i + 1, None, None, None) == Some((im, i + w.len())));
}


/// An image entry the codec can carry: bounded coordinates and a plain
/// filename.
pub open spec fn image_view_ok(im: ImageView) -> bool {
    level_coord_ok(im.x) && level_coord_ok(im.y) && crate::level::filename_ok(im.filename)
}

/// The rendered elements of a non-empty block array, embedded at
/// position `i` and followed by the closing bracket, parse back to
/// exactly those elements appended to the accumulator.
#[verifier::spinoff_prover]
#[verifier::rlimit(100)]
proof fn lemma_blocks_items_roundtrip_at(s: Seq<char>, i: int, elems: Seq<LevelBlockModel>, acc: Seq<LevelBlockModel>)
    requires
        elems.len() >= 1,
        forall|k: int| 0 <= k < elems.len() ==> block_ok(#[trigger] elems[k]),
        0 <= i,
        i + spec_ser_blocks_items(elems).len() < s.len(),
        s.subrange(i, i + spec_ser_blocks_items(elems).len()) == spec_ser_blocks_items(elems),
        s[i + spec_ser_blocks_items(elems).len()] == ']',
    ensures
        spec_parse_blocks_items(s, i, acc) == Some((acc + elems, i + spec_ser_blocks_items(elems).len() + 1)),
    decreases elems.len(),
{
    let w = spec_ser_blocks_items(elems);
    let e = elems[0];
    let bl = spec_ser_block(e).len() as int;
    reveal_strlit(",");
    if elems.len() == 1 {
        lemma_block_roundtrip_at(s, i, e);
        assert(s[i + bl] == ']');
        lemma_skip_ws_nop(s, i + bl);
        assert(acc.push(e) =~= acc + elems);
    } else {
        let rest = elems.drop_first();
        let rl = spec_ser_blocks_items(rest).len() as int;
        assert(w == spec_ser_block(e) + ","@ + spec_ser_blocks_items(rest));
        assert(w.subrange(0, bl) =~= spec_ser_block(e));
        lemma_subrange_extract(s, i, w, 0, bl, spec_ser_block(e));
        lemma_block_roundtrip_at(s, i, e);
        lemma_at(s, i, w, bl);
        assert(s[i + bl] == ',');
        lemma_skip_ws_nop(s, i + bl);
        assert(w.subrange(bl + 1, bl + 1 + rl) =~= spec_ser_blocks_items(rest));
        lemma_subrange_extract(s, i, w, bl + 1, bl + 1 + rl, spec_ser_blocks_items(rest));
        assert(s[(i + (bl + 1)) + rl] == ']');
        lemma_blocks_items_roundtrip_at(s, i + (bl + 1), rest, acc.push(e));
        assert(acc.push(e) + rest =~= acc + elems);
    }
}

/// The rendered elements of a non-empty circle array, embedded at
/// position `i` and followed by the closing bracket, parse back to
/// exactly those elements appended to the accumulator.
#[verifier::spinoff_prover]
#[verifier::rlimit(100)]
proof fn lemma_circles_items_roundtrip_at(s: Seq<char>, i: int, elems: Seq<LevelCircleModel>, acc: Seq<LevelCircleModel>)
    requires
        elems.len() >= 1,
        forall|k: int| 0 <= k < elems.len() ==> circle_ok(#[trigger] elems[k]),
        0 <= i,
        i + spec_ser_circles_items(elems).len() < s.len(),
        s.subrange(i, i + spec_ser_circles_items(elems).len()) == spec_ser_circles_items(elems),
        s[i + spec_ser_circles_items(elems).len()] == ']',
    ensures
        spec_parse_circles_items(s, i, acc) == Some((acc + elems, i + spec_ser_circles_items(elems).len() + 1)),
    decreases elems.len(),
{
    let w = spec_ser_circles_items(elems);
    let e = elems[0];
    let bl = spec_ser_circle(e).len() as int;
    reveal_strlit(",");
    if elems.len() == 1 {
        lemma_circle_roundtrip_at(s, i, e);
        assert(s[i + bl] == ']');
        lemma_skip_ws_nop(s, i + bl);
        assert(acc.push(e) =~= acc + elems);
    } else {
        let rest = elems.drop_first();
        let rl = spec_ser_circles_items(rest).len() as int;
        assert(w == spec_ser_circle(e) + ","@ + spec_ser_circles_items(rest));
        assert(w.subrange(0, bl) =~= spec_ser_circle(e));
        lemma_subrange_extract(s, i, w, 0, bl, spec_ser_circle(e));
        lemma_circle_roundtrip_at(s, i, e);
        lemma_at(s, i, w, bl);
        assert(s[i + bl] == ',');
        lemma_skip_ws_nop(s, i + bl);
        assert(w.subrange(bl + 1, bl + 1 + rl) =~= spec_ser_circles_items(rest));
        lemma_subrange_extract(s, i, w, bl + 1, bl + 1 + rl, spec_ser_circles_items(rest));
        assert(s[(i + (bl + 1)) + rl] == ']');
        lemma_circles_items_roundtrip_at(s, i + (bl + 1), rest, acc.push(e));
        assert(acc.push(e) + rest =~= acc + elems);
    }
}

/// The rendered elements of a non-empty image array, embedded at
/// position `i` and followed by the closing bracket, parse back to
/// exactly those elements appended to the accumulator.
#[verifier::spinoff_prover]
#[verifier::rlimit(100)]
proof fn lemma_images_items_roundtrip_at(s: Seq<char>, i: int, elems: Seq<ImageView>, acc: Seq<ImageView>)
    requires
        elems.len() >= 1,
        forall|k: int| 0 <= k < elems.len() ==> image_view_ok(#[trigger] elems[k]),
        0 <= i,
        i + spec_ser_images_items(elems).len() < s.len(),
        s.subrange(i, i + spec_ser_images_items(elems).len()) == spec_ser_images_items(elems),
        s[i + spec_ser_images_items(elems).len()] == ']',
    ensures
        spec_parse_images_items(s, i, acc) == Some((acc + elems, i + spec_ser_images_items(elems).len() + 1)),
    decreases elems.len(),
{
    let w = spec_ser_images_items(elems);
    let e = elems[0];
    let bl = spec_ser_image(e).len() as int;
    reveal_strlit(",");
    if elems.len() == 1 {
        lemma_image_roundtrip_at(s, i, e);
        assert(s[i + bl] == ']');
        lemma_skip_ws_nop(s, i + bl);
        assert(acc.push(e) =~= acc + elems);
    } else {
        let rest = elems.drop_first();
        let rl = spec_ser_images_items(rest).len() as int;
        assert(w == spec_ser_image(e) + ","@ + spec_ser_images_items(rest));
        assert(w.subrange(0, bl) =~= spec_ser_image(e));
        lemma_subrange_extract(s, i, w, 0, bl, spec_ser_image(e));
        lemma_image_roundtrip_at(s, i, e);
        lemma_at(s, i, w, bl);
        assert(s[i + bl] == ',');
        lemma_skip_ws_nop(s, i + bl);
        assert(w.subrange(bl + 1, bl + 1 + rl) =~= spec_ser_images_items(rest));
        lemma_subrange_extract(s, i, w, bl + 1, bl + 1 + rl, spec_ser_images_items(rest));
        assert(s[(i + (bl + 1)) + rl] == ']');
        lemma_images_items_roundtrip_at(s, i + (bl + 1), rest, acc.push(e));
        assert(acc.push(e) + rest =~= acc + elems);
    }
}


/// Lengths of the rendered sections of a document, used to address the
/// canonical text.
pub open spec fn lr_q1(v: LevelView) -> int {
    spec_ser_point(v.player.x, v.player.y).len() as int
}

pub open spec fn lr_q2(v: LevelView) -> int {
    spec_ser_point(v.goal.x, v.goal.y).len() as int
}

/// Offset of the comma before `danger_blocks` in the canonical text.
pub open spec fn lr_a1(v: LevelView) -> int {
    18 + lr_q1(v) + lr_q2(v)
}

/// Offset of the bracket closing `danger_blocks`.
pub open spec fn lr_a2(v: LevelView) -> int {
    lr_a1(v) + 18 + spec_ser_blocks_items(v.blocks).len()
}

/// Offset of the bracket closing `danger_circles`.
pub open spec fn lr_a3(v: LevelView) -> int {
    lr_a2(v) + 20 + spec_ser_circles_items(v.circles).len()
}

/// Offset of the bracket closing `images`.
pub open spec fn lr_a4(v: LevelView) -> int {
    lr_a3(v) + 12 + spec_ser_images_items(v.images).len()
}

/// The opening brace and the `player` member of the canonical text parse
/// exactly.
#[verifier::spinoff_prover]
#[verifier::rlimit(100)]
proof fn lemma_level_player_member(v: LevelView)
    requires
        view_wf(v),
    ensures
        ({
            let s = spec_ser_level(v);
            let q1 = lr_q1(v);
            &&& s.len() == lr_a4(v) + 2
            &&& spec_skip_ws(s, 0) == 0 && s[0] == '{'
            &&& spec_skip_ws(s, 1) == 1
            &&& spec_parse_string(s, 1) == Some(("player"@, 9int))
            &&& spec_skip_ws(s, 9) == 9 && s[9] == ':'
            &&& spec_parse_point(s, 10) == Some(((v.player.x, v.player.y), 10 + q1))
            &&& spec_skip_ws(s, 10 + q1) == 10 + q1 && s[10 + q1] == ','
        }),
{
    let s = spec_ser_level(v);
    let q1 = lr_q1(v);
    reveal_strlit("{\"player\":");
    reveal_strlit(",\"goal\":");
    reveal_strlit(",\"danger_blocks\":[");
    reveal_strlit("],\"danger_circles\":[");
    reveal_strlit("],\"images\":[");
    reveal_strlit("]}");
    reveal_strlit("player");
    assert(s.subrange(0, s.len() as int) =~= s);
    let w = s;
    let i = 0int;
    lemma_at(s, i, w, 0);
    assert(s[0] == '{');
    lemma_skip_ws_nop(s, 0);
    assert(crate::level::filename_ok("player"@)) by {
        assert forall|k: int| 0 <= k < 6 implies filename_char_ok(#[trigger] "player"@[k]) by {}
    }
    assert(w.subrange(1, 9) =~= spec_ser_string("player"@));
    lemma_subrange_extract(s, i, w, 1, 9, spec_ser_string("player"@));
    lemma_at(s, i, w, 1);
    lemma_skip_ws_nop(s, 1);
    lemma_string_roundtrip_at(s, 1, "player"@);
    lemma_at(s, i, w, 9);
    assert(s[i + 9] == ':');
    lemma_skip_ws_nop(s, 9);
    assert(w.subrange(10, 10 + q1) =~= spec_ser_point(v.player.x, v.player.y));
    lemma_subrange_extract(s, i, w, 10, 10 + q1, spec_ser_point(v.player.x, v.player.y));
    lemma_point_roundtrip_at(s, 10, v.player.x, v.player.y);
    lemma_at(s, i, w, 10 + q1);
    assert(s[i + (10 + q1)] == ',');
    lemma_skip_ws_nop(s, 10 + q1);
}

/// The `goal` member of the canonical text parses exactly.
#[verifier::spinoff_prover]
#[verifier::rlimit(100)]
proof fn lemma_level_goal_member(v: LevelView)
    requires
        view_wf(v),
    ensures
        ({
            let s = spec_ser_level(v);
            let q1 = lr_q1(v);
            &&& spec_skip_ws(s, 11 + q1) == 11 + q1
            &&& spec_parse_string(s, 11 + q1) == Some(("goal"@, 17 + q1))
            &&& spec_skip_ws(s, 17 + q1) == 17 + q1 && s[17 + q1] == ':'
            &&& spec_parse_point(s, 18 + q1) == Some(((v.goal.x, v.goal.y), lr_a1(v)))
            &&& spec_skip_ws(s, lr_a1(v)) == lr_a1(v) && s[lr_a1(v)] == ','
        }),
{
    let s = spec_ser_level(v);
    let q1 = lr_q1(v);
    let q2 = lr_q2(v);
    reveal_strlit("{\"player\":");
    reveal_strlit(",\"goal\":");
    reveal_strlit(",\"danger_blocks\":[");
    reveal_strlit("],\"danger_circles\":[");
    reveal_strlit("],\"images\":[");
    reveal_strlit("]}");
    reveal_strlit("goal");
    assert(s.subrange(0, s.len() as int) =~= s);
    let w = s;
    let i = 0int;
    assert(crate::level::filename_ok("goal"@)) by {
        assert forall|k: int| 0 <= k < 4 implies filename_char_ok(#[trigger] "goal"@[k]) by {}
    }
    assert(w.subrange(11 + q1, 17 + q1) =~= spec_ser_string("goal"@));
    lemma_subrange_extract(s, i, w, 11 + q1, 17 + q1, spec_ser_string("goal"@));
    lemma_at(s, i, w, 11 + q1);
    lemma_skip_ws_nop(s, 11 + q1);
    lemma_string_roundtrip_at(s, 11 + q1, "goal"@);
    lemma_at(s, i, w, 17 + q1);
    assert(s[i + (17 + q1)] == ':');
    lemma_skip_ws_nop(s, 17 + q1);
    assert(w.subrange(18 + q1, 18 + q1 + q2) =~= spec_ser_point(v.goal.x, v.goal.y));
    lemma_subrange_extract(s, i, w, 18 + q1, 18 + q1 + q2, spec_ser_point(v.goal.x, v.goal.y));
    lemma_point_roundtrip_at(s, 18 + q1, v.goal.x, v.goal.y);
    lemma_at(s, i, w, lr_a1(v));
    assert(s[i + lr_a1(v)] == ',');
    lemma_skip_ws_nop(s, lr_a1(v));
}

/// The `danger_blocks` member of the canonical text parses exactly.
#[verifier::spinoff_prover]
#[verifier::rlimit(100)]
proof fn lemma_level_blocks_member(v: LevelView)
    requires
        view_wf(v),
    ensures
        ({
            let s = spec_ser_level(v);
            let a1 = lr_a1(v);
            let a2 = lr_a2(v);
            &&& spec_skip_ws(s, a1 + 1) == a1 + 1
            &&& spec_parse_string(s, a1 + 1) == Some(("danger_blocks"@, a1 + 16))
            &&& spec_skip_ws(s, a1 + 16) == a1 + 16 && s[a1 + 16] == ':'
            &&& spec_parse_blocks(s, a1 + 17) == Some((v.blocks, a2 + 1))
            &&& spec_skip_ws(s, a2 + 1) == a2 + 1 && s[a2 + 1] == ','
        }),
{
    let s = spec_ser_level(v);
    let a1 = lr_a1(v);
    let a2 = lr_a2(v);
    let tb = spec_ser_blocks_items(v.blocks).len() as int;
    reveal_strlit("{\"player\":");
    reveal_strlit(",\"goal\":");
    reveal_strlit(",\"danger_blocks\":[");
    reveal_strlit("],\"danger_circles\":[");
    reveal_strlit("],\"images\":[");
    reveal_strlit("]}");
    reveal_strlit("danger_blocks");
    assert(s.subrange(0, s.len() as int) =~= s);
    let w = s;
    let i = 0int;
    assert(crate::level::filename_ok("danger_blocks"@)) by {
        assert forall|k: int| 0 <= k < 13 implies filename_char_ok(
            #[trigger] "danger_blocks"@[k],
        ) by {}
    }
    assert(w.subrange(a1 + 1, a1 + 16) =~= spec_ser_string("danger_blocks"@));
    lemma_subrange_extract(s, i, w, a1 + 1, a1 + 16, spec_ser_string("danger_blocks"@));
    lemma_at(s, i, w, a1 + 1);
    lemma_skip_ws_nop(s, a1 + 1);
    lemma_string_roundtrip_at(s, a1 + 1, "danger_blocks"@);
    lemma_at(s, i, w, a1 + 16);
    assert(s[i + (a1 + 16)] == ':');
    lemma_skip_ws_nop(s, a1 + 16);
    lemma_at(s, i, w, a1 + 17);
    assert(s[i + (a1 + 17)] == '[');
    lemma_skip_ws_nop(s, a1 + 17);
    lemma_at(s, i, w, a1 + 18 + tb);
    assert(s[i + (a1 + 18 + tb)] == ']');
    if v.blocks.len() == 0 {
        assert(tb == 0);
        lemma_skip_ws_nop(s, a1 + 18);
        assert(Seq::<LevelBlockModel>::empty() =~= v.blocks);
    } else {
        assert(w.subrange(a1 + 18, a1 + 18 + tb) =~= spec_ser_blocks_items(v.blocks));
        lemma_subrange_extract(s, i, w, a1 + 18, a1 + 18 + tb, spec_ser_blocks_items(v.blocks));
        assert(spec_ser_blocks_items(v.blocks)[0] == '{') by {
            reveal_strlit("{\"x\":");
        }
        lemma_at(s, i, w, a1 + 18);
        assert(s[i + (a1 + 18)] == '{');
        lemma_skip_ws_nop(s, a1 + 18);
        lemma_blocks_items_roundtrip_at(s, a1 + 18, v.blocks, Seq::empty());
        assert(Seq::<LevelBlockModel>::empty() + v.blocks =~= v.blocks);
    }
    lemma_at(s, i, w, a2 + 1);
    assert(s[i + (a2 + 1)] == ',');
    lemma_skip_ws_nop(s, a2 + 1);
}

/// The `danger_circles` member of the canonical text parses exactly.
#[verifier::spinoff_prover]
#[verifier::rlimit(100)]
proof fn lemma_level_circles_member(v: LevelView)
    requires
        view_wf(v),
    ensures
        ({
            let s = spec_ser_level(v);
            let a2 = lr_a2(v);
            let a3 = lr_a3(v);
            &&& spec_skip_ws(s, a2 + 2) == a2 + 2
            &&& spec_parse_string(s, a2 + 2) == Some(("danger_circles"@, a2 + 18))
            &&& spec_skip_ws(s, a2 + 18) == a2 + 18 && s[a2 + 18] == ':'
            &&& spec_parse_circles(s, a2 + 19) == Some((v.circles, a3 + 1))
            &&& spec_skip_ws(s, a3 + 1) == a3 + 1 && s[a3 + 1] == ','
        }),
{
    let s = spec_ser_level(v);
    let a2 = lr_a2(v);
    let a3 = lr_a3(v);
    let tc = spec_ser_circles_items(v.circles).len() as int;
    reveal_strlit("{\"player\":");
    reveal_strlit(",\"goal\":");
    reveal_strlit(",\"danger_blocks\":[");
    reveal_strlit("],\"danger_circles\":[");
    reveal_strlit("],\"images\":[");
    reveal_strlit("]}");
    reveal_strlit("danger_circles");
    assert(s.subrange(0, s.len() as int) =~= s);
    let w = s;
    let i = 0int;
    assert(crate::level::filename_ok("danger_circles"@)) by {
        assert forall|k: int| 0 <= k < 14 implies filename_char_ok(
            #[trigger] "danger_circles"@[k],
        ) by {}
    }
    assert(w.subrange(a2 + 2, a2 + 18) =~= spec_ser_string("danger_circles"@));
    lemma_subrange_extract(s, i, w, a2 + 2, a2 + 18, spec_ser_string("danger_circles"@));
    lemma_at(s, i, w, a2 + 2);
    lemma_skip_ws_nop(s, a2 + 2);
    lemma_string_roundtrip_at(s, a2 + 2, "danger_circles"@);
    lemma_at(s, i, w, a2 + 18);
    assert(s[i + (a2 + 18)] == ':');
    lemma_skip_ws_nop(s, a2 + 18);
    lemma_at(s, i, w, a2 + 19);
    assert(s[i + (a2 + 19)] == '[');
    lemma_skip_ws_nop(s, a2 + 19);
    lemma_at(s, i, w, a2 + 20 + tc);
    assert(s[i + (a2 + 20 + tc)] == ']');
    if v.circles.len() == 0 {
        assert(tc == 0);
        lemma_skip_ws_nop(s, a2 + 20);
        assert(Seq::<LevelCircleModel>::empty() =~= v.circles);
    } else {
        assert(w.subrange(a2 + 20, a2 + 20 + tc) =~= spec_ser_circles_items(v.circles));
        lemma_subrange_extract(s, i, w, a2 + 20, a2 + 20 + tc, spec_ser_circles_items(v.circles));
        assert(spec_ser_circles_items(v.circles)[0] == '{') by {
            reveal_strlit("{\"x\":");
        }
        lemma_at(s, i, w, a2 + 20);
        assert(s[i + (a2 + 20)] == '{');
        lemma_skip_ws_nop(s, a2 + 20);
        lemma_circles_items_roundtrip_at(s, a2 + 20, v.circles, Seq::empty());
        assert(Seq::<LevelCircleModel>::empty() + v.circles =~= v.circles);
    }
    lemma_at(s, i, w, a3 + 1);
    assert(s[i + (a3 + 1)] == ',');
    lemma_skip_ws_nop(s, a3 + 1);
}

/// The `images` member and the closing brace of the canonical text parse
/// exactly, and nothing follows them.
#[verifier::spinoff_prover]
#[verifier::rlimit(100)]
proof fn lemma_level_images_member(v: LevelView)
    requires
        view_wf(v),
    ensures
        ({
            let s = spec_ser_level(v);
            let a3 = lr_a3(v);
            let a4 = lr_a4(v);
            &&& spec_skip_ws(s, a3 + 2) == a3 + 2
            &&& spec_parse_string(s, a3 + 2) == Some(("images"@, a3 + 10))
            &&& spec_skip_ws(s, a3 + 10) == a3 + 10 && s[a3 + 10] == ':'
            &&& spec_parse_images(s, a3 + 11) == Some((v.images, a4 + 1))
            &&& spec_skip_ws(s, a4 + 1) == a4 + 1 && s[a4 + 1] == '}'
            &&& spec_skip_ws(s, a4 + 2) == s.len()
        }),
{
    let s = spec_ser_level(v);
    let a3 = lr_a3(v);
    let a4 = lr_a4(v);
    let ti = spec_ser_images_items(v.images).len() as int;
    reveal_strlit("{\"player\":");
    reveal_strlit(",\"goal\":");
    reveal_strlit(",\"danger_blocks\":[");
    reveal_strlit("],\"danger_circles\":[");
    reveal_strlit("],\"images\":[");
    reveal_strlit("]}");
    reveal_strlit("images");
    assert(s.subrange(0, s.len() as int) =~= s);
    let w = s;
    let i = 0int;
    assert(crate::level::filename_ok("images"@)) by {
        assert forall|k: int| 0 <= k < 6 implies filename_char_ok(#[trigger] "images"@[k]) by {}
    }
    assert(w.subrange(a3 + 2, a3 + 10) =~= spec_ser_string("images"@));
    lemma_subrange_extract(s, i, w, a3 + 2, a3 + 10, spec_ser_string("images"@));
    lemma_at(s, i, w, a3 + 2);
    lemma_skip_ws_nop(s, a3 + 2);
    lemma_string_roundtrip_at(s, a3 + 2, "images"@);
    lemma_at(s, i, w, a3 + 10);
    assert(s[i + (a3 + 10)] == ':');
    lemma_skip_ws_nop(s, a3 + 10);
    lemma_at(s, i, w, a3 + 11);
    assert(s[i + (a3 + 11)] == '[');
    lemma_skip_ws_nop(s, a3 + 11);
    lemma_at(s, i, w, a3 + 12 + ti);
    assert(s[i + (a3 + 12 + ti)] == ']');
    if v.images.len() == 0 {
        assert(ti == 0);
        lemma_skip_ws_nop(s, a3 + 12);
        assert(Seq::<ImageView>::empty() =~= v.images);
    } else {
        assert(w.subrange(a3 + 12, a3 + 12 + ti) =~= spec_ser_images_items(v.images));
        lemma_subrange_extract(s, i, w, a3 + 12, a3 + 12 + ti, spec_ser_images_items(v.images));
        assert(spec_ser_images_items(v.images)[0] == '{') by {
            reveal_strlit("{\"filename\":");
        }
        lemma_at(s, i, w, a3 + 12);
        assert(s[i + (a3 + 12)] == '{');
        lemma_skip_ws_nop(s, a3 + 12);
        lemma_images_items_roundtrip_at(s, a3 + 12, v.images, Seq::empty());
        assert(Seq::<ImageView>::empty() + v.images =~= v.images);
    }
    lemma_at(s, i, w, a4 + 1);
    assert(s[i + (a4 + 1)] == '}');
    lemma_skip_ws_nop(s, a4 + 1);
    lemma_skip_ws_bounds(s, a4 + 2);
}

/// Unfolding one `player` member of the document object.
proof fn lemma_members_unfold_player(
    s: Seq<char>,
    p: int,
    px: i64,
    py: i64,
    endv: int,
    g: Option<LevelGoalModel>,
    bs: Option<Seq<LevelBlockModel>>,
    cs: Option<Seq<LevelCircleModel>>,
    ims: Option<Seq<ImageView>>,
)
    requires
        spec_skip_ws(s, p) == p,
        spec_parse_string(s, p) == Some(("player"@, p + 8)),
        spec_skip_ws(s, p + 8) == p + 8,
        0 <= p + 8 < s.len(),
        s[p + 8] == ':',
        spec_parse_point(s, p + 9) == Some(((px, py), endv)),
    ensures
        spec_parse_level_members(s, p, None, g, bs, cs, ims) == spec_parse_level_next(
            s,
            endv,
            Some(LevelPlayerModel { x: px, y: py }),
            g,
            bs,
            cs,
            ims,
        ),
{
}

/// Unfolding one `goal` member of the document object.
proof fn lemma_members_unfold_goal(
    s: Seq<char>,
    p: int,
    gx: i64,
    gy: i64,
    endv: int,
    pm: LevelPlayerModel,
    bs: Option<Seq<LevelBlockModel>>,
    cs: Option<Seq<LevelCircleModel>>,
    ims: Option<Seq<ImageView>>,
)
    requires
        spec_skip_ws(s, p) == p,
        spec_parse_string(s, p) == Some(("goal"@, p + 6)),
        spec_skip_ws(s, p + 6) == p + 6,
        0 <= p + 6 < s.len(),
        s[p + 6] == ':',
        spec_parse_point(s, p + 7) == Some(((gx, gy), endv)),
    ensures
        spec_parse_level_members(s, p, Some(pm), None, bs, cs, ims) == spec_parse_level_next(
            s,
            endv,
            Some(pm),
            Some(LevelGoalModel { x: gx, y: gy }),
            bs,
            cs,
            ims,
        ),
{
}

/// Unfolding one `danger_blocks` member of the document object.
proof fn lemma_members_unfold_blocks(
    s: Seq<char>,
    p: int,
    val: Seq<LevelBlockModel>,
    endv: int,
    pm: LevelPlayerModel,
    gm: LevelGoalModel,
    cs: Option<Seq<LevelCircleModel>>,
    ims: Option<Seq<ImageView>>,
)
    requires
        spec_skip_ws(s, p) == p,
        spec_parse_string(s, p) == Some(("danger_blocks"@, p + 15)),
        spec_skip_ws(s, p + 15) == p + 15,
        0 <= p + 15 < s.len(),
        s[p + 15] == ':',
        spec_parse_blocks(s, p + 16) == Some((val, endv)),
    ensures
        spec_parse_level_members(s, p, Some(pm), Some(gm), None, cs, ims)
            == spec_parse_level_next(s, endv, Some(pm), Some(gm), Some(val), cs, ims),
{
}

/// Unfolding one `danger_circles` member of the document object.
proof fn lemma_members_unfold_circles(
    s: Seq<char>,
    p: int,
    val: Seq<LevelCircleModel>,
    endv: int,
    pm: LevelPlayerModel,
    gm: LevelGoalModel,
    bs: Seq<LevelBlockModel>,
    ims: Option<Seq<ImageView>>,
)
    requires
        spec_skip_ws(s, p) == p,
        spec_parse_string(s, p) == Some(("danger_circles"@, p + 16)),
        spec_skip_ws(s, p + 16) == p + 16,
        0 <= p + 16 < s.len(),
        s[p + 16] == ':',
        spec_parse_circles(s, p + 17) == Some((val, endv)),
    ensures
        spec_parse_level_members(s, p, Some(pm), Some(gm), Some(bs), None, ims)
            == spec_parse_level_next(s, endv, Some(pm), Some(gm), Some(bs), Some(val), ims),
{
}

/// Unfolding the `images` member of the document object.
proof fn lemma_members_unfold_images(
    s: Seq<char>,
    p: int,
    val: Seq<ImageView>,
    endv: int,
    pm: LevelPlayerModel,
    gm: LevelGoalModel,
    bs: Seq<LevelBlockModel>,
    cs: Seq<LevelCircleModel>,
)
    requires
        spec_skip_ws(s, p) == p,
        spec_parse_string(s, p) == Some(("images"@, p + 8)),
        spec_skip_ws(s, p + 8) == p + 8,
        0 <= p + 8 < s.len(),
        s[p + 8] == ':',
        spec_parse_images(s, p + 9) == Some((val, endv)),
    ensures
        spec_parse_level_members(s, p, Some(pm), Some(gm), Some(bs), Some(cs), None)
            == spec_parse_level_next(s, endv, Some(pm), Some(gm), Some(bs), Some(cs), Some(val)),
{
}

/// After a member, a comma continues with the next member.
proof fn lemma_next_unfold_comma(
    s: Seq<char>,
    p: int,
    pm: Option<LevelPlayerModel>,
    gm: Option<LevelGoalModel>,
    bs: Option<Seq<LevelBlockModel>>,
    cs: Option<Seq<LevelCircleModel>>,
    ims: Option<Seq<ImageView>>,
)
    requires
        spec_skip_ws(s, p) == p,
        0 <= p < s.len(),
        s[p] == ',',
    ensures
        spec_parse_level_next(s, p, pm, gm, bs, cs, ims) == spec_parse_level_members(
            s,
            p + 1,
            pm,
            gm,
            bs,
            cs,
            ims,
        ),
{
}

/// After the last member, the closing brace completes the document.
proof fn lemma_next_unfold_close(
    s: Seq<char>,
    p: int,
    pm: LevelPlayerModel,
    gm: LevelGoalModel,
    bs: Seq<LevelBlockModel>,
    cs: Seq<LevelCircleModel>,
    ims: Seq<ImageView>,
)
    requires
        spec_skip_ws(s, p) == p,
        0 <= p < s.len(),
        s[p] == '}',
    ensures
        spec_parse_level_next(s, p, Some(pm), Some(gm), Some(bs), Some(cs), Some(ims)) == Some(
            (
                LevelView { player: pm, goal: gm, blocks: bs, circles: cs, images: ims },
                p + 1,
            ),
        ),
{
}

/// Total length of the canonical document text.
proof fn lemma_level_len(v: LevelView)
    ensures
        spec_ser_level(v).len() == lr_a4(v) + 2,
{
    reveal_strlit("{\"player\":");
    reveal_strlit(",\"goal\":");
    reveal_strlit(",\"danger_blocks\":[");
    reveal_strlit("],\"danger_circles\":[");
    reveal_strlit("],\"images\":[");
    reveal_strlit("]}");
}

/// The last two members of the canonical text, entered at the
/// `danger_circles` key with all earlier members recorded, parse to the
/// complete document value.
#[verifier::spinoff_prover]
#[verifier::rlimit(100)]
proof fn lemma_level_tail2(v: LevelView)
    requires
        view_wf(v),
    ensures
        spec_parse_level_members(
            spec_ser_level(v),
            lr_a2(v) + 2,
            Some(v.player),
            Some(v.goal),
            Some(v.blocks),
            None,
            None,
        ) == Some((v, lr_a4(v) + 2)),
{
    let s = spec_ser_level(v);
    let a2 = lr_a2(v);
    let a3 = lr_a3(v);
    let a4 = lr_a4(v);
    lemma_level_len(v);
    lemma_level_circles_member(v);
    lemma_level_images_member(v);
    lemma_members_unfold_circles(s, a2 + 2, v.circles, a3 + 1, v.player, v.goal, v.blocks, None);
    lemma_next_unfold_comma(
        s,
        a3 + 1,
        Some(v.player),
        Some(v.goal),
        Some(v.blocks),
        Some(v.circles),
        None,
    );
    lemma_members_unfold_images(s, a3 + 2, v.images, a4 + 1, v.player, v.goal, v.blocks, v.circles);
    lemma_next_unfold_close(s, a4 + 1, v.player, v.goal, v.blocks, v.circles, v.images);
    assert(LevelView {
        player: v.player,
        goal: v.goal,
        blocks: v.blocks,
        circles: v.circles,
        images: v.images,
    } == v);
}

/// The last three members of the canonical text, entered at the
/// `danger_blocks` key with the first two members already recorded, parse
/// to the complete document value.
#[verifier::spinoff_prover]
#[verifier::rlimit(100)]
proof fn lemma_level_tail(v: LevelView)
    requires
        view_wf(v),
    ensures
        spec_parse_level_members(
            spec_ser_level(v),
            lr_a1(v) + 1,
            Some(v.player),
            Some(v.goal),
            None,
            None,
            None,
        ) == Some((v, lr_a4(v) + 2)),
{
    let s = spec_ser_level(v);
    let a1 = lr_a1(v);
    let a2 = lr_a2(v);
    lemma_level_len(v);
    lemma_level_blocks_member(v);
    lemma_level_tail2(v);
    lemma_members_unfold_blocks(s, a1 + 1, v.blocks, a2 + 1, v.player, v.goal, None, None);
    lemma_next_unfold_comma(s, a2 + 1, Some(v.player), Some(v.goal), Some(v.blocks), None, None);
}

/// Round trip: a well-formed level value, written as its canonical
/// document text, parses back to exactly the same value.
#[verifier::spinoff_prover]
#[verifier::rlimit(100)]
pub proof fn lemma_level_roundtrip(v: LevelView)
    requires
        view_wf(v),
    ensures
        spec_parse_level(spec_ser_level(v)) == Some(v),
{
    let s = spec_ser_level(v);
    let q1 = lr_q1(v);
    let a1 = lr_a1(v);
    let a4 = lr_a4(v);
    lemma_level_player_member(v);
    lemma_level_goal_member(v);
    lemma_level_tail(v);
    reveal_strlit("player");
    reveal_strlit("goal");
    lemma_members_unfold_player(s, 1, v.player.x, v.player.y, 10 + q1, None, None, None, None);
    assert(LevelPlayerModel { x: v.player.x, y: v.player.y } == v.player);
    lemma_next_unfold_comma(s, 10 + q1, Some(v.player), None, None, None, None);
    lemma_members_unfold_goal(s, 11 + q1, v.goal.x, v.goal.y, a1, v.player, None, None, None);
    assert(LevelGoalModel { x: v.goal.x, y: v.goal.y } == v.goal);
    lemma_next_unfold_comma(s, a1, Some(v.player), Some(v.goal), None, None, None);
    assert(spec_parse_level_members(s, 1, None, None, None, None, None) == Some((v, a4 + 2)));
    lemma_skip_ws_bounds(s, a4 + 2);
    assert(spec_parse_level(s) == Some(v));
}

// ---------------------------------------------------------------------
// Serializer
// ---------------------------------------------------------------------

fn ser_nat(n: u64) -> (out: String)
    ensures
        out@ == spec_ser_nat(n as nat),
    decreases n,
{
    if n < 10 {
        let s = String::from_str(digit_str(n));
        proof {
            assert(s@ =~= spec_ser_nat(n as nat));
        }
        s
    } else {
        let mut s = ser_nat(n / 10);
        s.append(digit_str(n % 10));
        proof {
            assert(s@ =~= spec_ser_nat(n as nat));
        }
        s
    }
}

/// Render one milli-unit value as a decimal pixel number.
fn ser_num(n: i64) -> (out: String)
    requires
        level_coord_ok(n),
    ensures
        out@ == spec_ser_num(n as int),
{
    let neg = n < 0;
    let a: u64 = if neg {
        (-n) as u64
    } else {
        n as u64
    };
    let mut s = if neg {
        String::from_str("-")
    } else {
        String::new()
    };
    proof {
        reveal_strlit("-");
        assert(s@ =~= (if n < 0 {
            seq!['-']
        } else {
            Seq::<char>::empty()
        }));
    }
    s.append(ser_nat(a / 1000).as_str());
    let fp = a % 1000;
    if fp > 0 {
        s.append(".");
        proof {
            reveal_strlit(".");
            assert("."@ =~= seq!['.']);
        }
        if fp % 100 == 0 {
            s.append(digit_str(fp / 100));
        } else if fp % 10 == 0 {
            s.append(digit_str(fp / 100));
            s.append(digit_str((fp / 10) % 10));
        } else {
            s.append(digit_str(fp / 100));
            s.append(digit_str((fp / 10) % 10));
            s.append(digit_str(fp % 10));
        }
        proof {
            assert(s@ =~= spec_ser_num(n as int));
        }
    } else {
        proof {
            assert(s@ =~= spec_ser_num(n as int));
        }
    }
    s
}

fn ser_point(x: i64, y: i64) -> (out: String)
    requires
        level_coord_ok(x),
        level_coord_ok(y),
    ensures
        out@ == spec_ser_point(x, y),
{
    let mut s = String::from_str("{\"x\":");
    s.append(ser_num(x).as_str());
    s.append(",\"y\":");
    s.append(ser_num(y).as_str());
    s.append("}");
    proof {
        assert(s@ =~= spec_ser_point(x, y));
    }
    s
}

fn ser_block(b: &LevelBlockModel) -> (out: String)
    requires
        level_coord_ok(b.x),
        level_coord_ok(b.y),
        level_coord_ok(b.w),
        level_coord_ok(b.h),
    ensures
        out@ == spec_ser_block(*b),
{
    let mut s = String::from_str("{\"x\":");
    s.append(ser_num(b.x).as_str());
    s.append(",\"y\":");
    s.append(ser_num(b.y).as_str());
    s.append(",\"w\":");
    s.append(ser_num(b.w).as_str());
    s.append(",\"h\":");
    s.append(ser_num(b.h).as_str());
    s.append("}");
    proof {
        assert(s@ =~= spec_ser_block(*b));
    }
    s
}

fn ser_circle(c: &LevelCircleModel) -> (out: String)
    requires
        level_coord_ok(c.x),
        level_coord_ok(c.y),
        level_coord_ok(c.r),
    ensures
        out@ == spec_ser_circle(*c),
{
    let mut s = String::from_str("{\"x\":");
    s.append(ser_num(c.x).as_str());
    s.append(",\"y\":");
    s.append(ser_num(c.y).as_str());
    s.append(",\"r\":");
    s.append(ser_num(c.r).as_str());
    s.append("}");
    proof {
        assert(s@ =~= spec_ser_circle(*c));
    }
    s
}

fn ser_image(im: &crate::level::LevelImageModel) -> (out: String)
    requires
        level_coord_ok(im.x),
        level_coord_ok(im.y),
    ensures
        out@ == spec_ser_image(image_view(*im)),
{
    let mut s = String::from_str("{\"filename\":\"");
    s.append(im.filename.as_str());
    s.append("\",\"x\":");
    s.append(ser_num(im.x).as_str());
    s.append(",\"y\":");
    s.append(ser_num(im.y).as_str());
    s.append("}");
    proof {
        reveal_strlit("{\"filename\":\"");
        reveal_strlit("\",\"x\":");
        reveal_strlit("{\"filename\":");
        reveal_strlit("\"");
        reveal_strlit(",\"x\":");
        assert(s@ =~= spec_ser_image(image_view(*im)));
    }
    s
}

fn ser_blocks_items(v: &Vec<LevelBlockModel>, i: usize) -> (out: String)
    requires
        i <= v@.len(),
        forall|k: int|
            0 <= k < v@.len() ==> {
                let b = #[trigger] v@[k];
                level_coord_ok(b.x) && level_coord_ok(b.y) && level_coord_ok(b.w)
                    && level_coord_ok(b.h)
            },
    ensures
        out@ == spec_ser_blocks_items(v@.skip(i as int)),
    decreases v@.len() - i,
{
    if i == v.len() {
        proof {
            assert(v@.skip(i as int).len() == 0);
        }
        String::new()
    } else {
        let mut s = ser_block(&v[i]);
        proof {
            assert(v@.skip(i as int)[0] == v@[i as int]);
            assert(v@.skip(i as int).drop_first() =~= v@.skip(i + 1));
        }
        if i + 1 < v.len() {
            s.append(",");
            proof {
                reveal_strlit(",");
                assert(","@ =~= seq![',']);
            }
            s.append(ser_blocks_items(v, i + 1).as_str());
            proof {
                assert(s@ =~= spec_ser_blocks_items(v@.skip(i as int)));
            }
        } else {
            proof {
                assert(v@.skip(i as int).len() == 1);
            }
        }
        s
    }
}

fn ser_circles_items(v: &Vec<LevelCircleModel>, i: usize) -> (out: String)
    requires
        i <= v@.len(),
        forall|k: int|
            0 <= k < v@.len() ==> {
                let c = #[trigger] v@[k];
                level_coord_ok(c.x) && level_coord_ok(c.y) && level_coord_ok(c.r)
            },
    ensures
        out@ == spec_ser_circles_items(v@.skip(i as int)),
    decreases v@.len() - i,
{
    if i == v.len() {
        proof {
            assert(v@.skip(i as int).len() == 0);
        }
        String::new()
    } else {
        let mut s = ser_circle(&v[i]);
        proof {
            assert(v@.skip(i as int)[0] == v@[i as int]);
            assert(v@.skip(i as int).drop_first() =~= v@.skip(i + 1));
        }
        if i + 1 < v.len() {
            s.append(",");
            proof {
                reveal_strlit(",");
                assert(","@ =~= seq![',']);
            }
            s.append(ser_circles_items(v, i + 1).as_str());
            proof {
                assert(s@ =~= spec_ser_circles_items(v@.skip(i as int)));
            }
        } else {
            proof {
                assert(v@.skip(i as int).len() == 1);
            }
        }
        s
    }
}

fn ser_images_items(v: &Vec<crate::level::LevelImageModel>, i: usize) -> (out: String)
    requires
        i <= v@.len(),
        forall|k: int|
            0 <= k < v@.len() ==> level_coord_ok((#[trigger] v@[k]).x) && level_coord_ok(v@[k].y),
    ensures
        out@ == spec_ser_images_items(
            v@.skip(i as int).map_values(|im: crate::level::LevelImageModel| image_view(im)),
        ),
    decreases v@.len() - i,
{
    let ghost f = |im: crate::level::LevelImageModel| image_view(im);
    if i == v.len() {
        proof {
            assert(v@.skip(i as int).map_values(f).len() == 0);
        }
        String::new()
    } else {
        let mut s = ser_image(&v[i]);
        proof {
            assert(v@.skip(i as int).map_values(f)[0] == f(v@[i as int]));
            assert(v@.skip(i as int).map_values(f).drop_first() =~= v@.skip(i + 1).map_values(f));
        }
        if i + 1 < v.len() {
            s.append(",");
            proof {
                reveal_strlit(",");
                assert(","@ =~= seq![',']);
            }
            s.append(ser_images_items(v, i + 1).as_str());
            proof {
                assert(s@ =~= spec_ser_images_items(v@.skip(i as int).map_values(f)));
            }
        } else {
            proof {
                assert(v@.skip(i as int).map_values(f).len() == 1);
            }
        }
        s
    }
}

// ---------------------------------------------------------------------
// Parser
// ---------------------------------------------------------------------

/// Every character before the end of a string body can be carried in a
/// filename, and the end never runs past the text.
proof fn lemma_string_body_ok(s: Seq<char>, i: int)
    requires
        0 <= i <= s.len(),
    ensures
        i <= string_body_end(s, i) <= s.len(),
        forall|k: int| i <= k < string_body_end(s, i) ==> filename_char_ok(#[trigger] s[k]),
    decreases s.len() - i,
{
    if i < s.len() && filename_char_ok(s[i]) {
        lemma_string_body_ok(s, i + 1);
    }
}

/// `spec_skip_ws` lands between `i` and the end of the text.
proof fn lemma_skip_ws_bounds(s: Seq<char>, i: int)
    requires
        0 <= i <= s.len(),
    ensures
        i <= spec_skip_ws(s, i) <= s.len(),
    decreases s.len() - i,
{
    if i < s.len() && is_ws(s[i]) {
        lemma_skip_ws_bounds(s, i + 1);
    }
}

fn skip_ws(s: &str, i: usize, len: usize) -> (j: usize)
    requires
        i <= s@.len(),
        len == s@.len(),
    ensures
        j as int == spec_skip_ws(s@, i as int),
        i <= j <= s@.len(),
    decreases s@.len() - i,
{
    if i < len {
        let c = s.get_char(i);
        if c == ' ' || c == '\n' || c == '\t' || c == '\r' {
            return skip_ws(s, i + 1, len);
        }
    }
    i
}

fn string_body_end_at(s: &str, i: usize, len: usize) -> (j: usize)
    requires
        i <= s@.len(),
        len == s@.len(),
    ensures
        j as int == string_body_end(s@, i as int),
        i <= j <= s@.len(),
    decreases s@.len() - i,
{
    if i < len {
        let c = s.get_char(i);
        if c != '"' && c != '\\' && (c as u32) >= 32 {
            return string_body_end_at(s, i + 1, len);
        }
    }
    i
}

fn parse_string_at(s: &str, i: usize, len: usize) -> (r: Option<(String, usize)>)
    requires
        i <= s@.len(),
        len == s@.len(),
    ensures
        r matches Some(p) ==> spec_parse_string(s@, i as int) == Some((p.0@, p.1 as int)) && i
            < p.1 <= len && crate::level::filename_ok(p.0@),
        r is None ==> spec_parse_string(s@, i as int) is None,
{
    if i < len && s.get_char(i) == '"' {
        let j = string_body_end_at(s, i + 1, len);
        if j < len && s.get_char(j) == '"' {
            let body = s.substring_char(i + 1, j);
            proof {
                lemma_string_body_ok(s@, i + 1);
            }
            Some((String::from_str(body), j + 1))
        } else {
            None
        }
    } else {
        None
    }
}

/// A short digit run reads below the scale of its width.
proof fn lemma_digits_val_small(s: Seq<char>, i: int, j: int)
    requires
        0 <= i <= j <= s.len(),
        j - i <= 3,
        forall|k: int| i <= k < j ==> is_digit(#[trigger] s[k]),
    ensures
        0 <= digits_val(s, i, j) <= 999,
{
    assert(digits_val(s, i, i) == 0);
    if j > i {
        assert(digits_val(s, i, i + 1) == digits_val(s, i, i) * 10 + dval(s[i]));
    }
    if j > i + 1 {
        assert(digits_val(s, i, i + 2) == digits_val(s, i, i + 1) * 10 + dval(s[i + 1]));
    }
    if j > i + 2 {
        assert(digits_val(s, i, i + 3) == digits_val(s, i, i + 2) * 10 + dval(s[i + 2]));
    }
}

/// Scan a digit run: its end, and its value capped just above the
/// document bound.
fn scan_digits(s: &str, i: usize, len: usize) -> (r: (u64, usize))
    requires
        i <= s@.len(),
        len == s@.len(),
    ensures
        r.1 as int == digits_end(s@, i as int),
        i <= r.1 <= len,
        forall|k: int| i <= k < r.1 ==> is_digit(#[trigger] s@[k]),
        digits_val(s@, i as int, r.1 as int) >= 0,
        digits_val(s@, i as int, r.1 as int) <= LEVEL_COORD_LIMIT ==> r.0 as int == digits_val(
            s@,
            i as int,
            r.1 as int,
        ),
        digits_val(s@, i as int, r.1 as int) > LEVEL_COORD_LIMIT ==> r.0 as int
            == LEVEL_COORD_LIMIT + 1,
{
    let mut p: usize = i;
    let mut acc: u64 = 0;
    loop
        invariant
            i <= p <= len,
            len == s@.len(),
            forall|k: int| i <= k < p ==> is_digit(#[trigger] s@[k]),
            digits_val(s@, i as int, p as int) >= 0,
            digits_val(s@, i as int, p as int) <= LEVEL_COORD_LIMIT ==> acc as int == digits_val(
                s@,
                i as int,
                p as int,
            ),
            digits_val(s@, i as int, p as int) > LEVEL_COORD_LIMIT ==> acc as int
                == LEVEL_COORD_LIMIT + 1,
            acc as int <= LEVEL_COORD_LIMIT + 1,
        ensures
            i <= p <= len,
            forall|k: int| i <= k < p ==> is_digit(#[trigger] s@[k]),
            digits_val(s@, i as int, p as int) >= 0,
            digits_val(s@, i as int, p as int) <= LEVEL_COORD_LIMIT ==> acc as int == digits_val(
                s@,
                i as int,
                p as int,
            ),
            digits_val(s@, i as int, p as int) > LEVEL_COORD_LIMIT ==> acc as int
                == LEVEL_COORD_LIMIT + 1,
            p == len || !is_digit(s@[p as int]),
        decreases s@.len() - p,
    {
        if p >= len {
            break ;
        }
        let c = s.get_char(p);
        let cu = c as u32;
        if !(48 <= cu && cu <= 57) {
            break ;
        }
        let d = (cu - 48) as u64;
        proof {
            assert(digits_val(s@, i as int, p + 1) == digits_val(s@, i as int, p as int) * 10
                + dval(s@[p as int]));
        }
        acc = if acc > (LEVEL_COORD_LIMIT as u64) {
            LEVEL_COORD_LIMIT as u64 + 1
        } else {
            let na = acc * 10 + d;
            if na > (LEVEL_COORD_LIMIT as u64) {
                LEVEL_COORD_LIMIT as u64 + 1
            } else {
                na
            }
        };
        p += 1;
    }
    proof {
        lemma_digits_end_exact(s@, i as int, p as int);
    }
    (acc, p)
}

fn parse_number_at(s: &str, i: usize, len: usize) -> (r: Option<(i64, usize)>)
    requires
        i <= s@.len(),
        len == s@.len(),
    ensures
        r matches Some(p) ==> spec_parse_number(s@, i as int) == Some((p.0, p.1 as int)) && i < p.1
            <= len && level_coord_ok(p.0),
        r is None ==> spec_parse_number(s@, i as int) is None,
{
    let neg = i < len && s.get_char(i) == '-';
    let i1 = if neg {
        i + 1
    } else {
        i
    };
    let (ipv, j) = scan_digits(s, i1, len);
    if j == i1 {
        return None;
    }
    let has_frac = j < len && s.get_char(j) == '.';
    let mut fp: u64 = 0;
    let mut j2 = j;
    if has_frac {
        let (fv, k) = scan_digits(s, j + 1, len);
        if k == j + 1 || k - (j + 1) > 3 {
            return None;
        }
        proof {
            lemma_digits_val_small(s@, j + 1, k as int);
        }
        let nd = k - (j + 1);
        let scale: u64 = if nd == 1 {
            100
        } else if nd == 2 {
            10
        } else {
            1
        };
        fp = fv * scale;
        j2 = k;
    }
    if ipv > LEVEL_COORD_LIMIT as u64 {
        return None;
    }
    let a = ipv * 1000 + fp;
    if a > LEVEL_COORD_LIMIT as u64 {
        return None;
    }
    if neg {
        Some((-(a as i64), j2))
    } else {
        Some((a as i64, j2))
    }
}

fn parse_xy_members(s: &str, i: usize, len: usize, x: Option<i64>, y: Option<i64>) -> (r: Option<
    ((i64, i64), usize),
>)
    requires
        i <= s@.len(),
        len == s@.len(),
        x matches Some(v) ==> level_coord_ok(v),
        y matches Some(v) ==> level_coord_ok(v),
    ensures
        r matches Some(p) ==> spec_parse_xy_members(s@, i as int, x, y) == Some(
            ((p.0.0, p.0.1), p.1 as int),
        ) && p.1 <= len && level_coord_ok(p.0.0) && level_coord_ok(p.0.1),
        r is None ==> spec_parse_xy_members(s@, i as int, x, y) is None,
    decreases (if x is None { 1int } else { 0int }) + (if y is None { 1int } else { 0int }),
{
    let i1 = skip_ws(s, i, len);
    let parsed = parse_string_at(s, i1, len);
    match parsed {
        None => None,
        Some((key, i2)) => {
            let i3 = skip_ws(s, i2, len);
            if !(i3 < len && s.get_char(i3) == ':') {
                None
            } else {
                let i4 = skip_ws(s, i3 + 1, len);
                match parse_number_at(s, i4, len) {
                    None => None,
                    Some((v, i5)) => {
                        let i6 = skip_ws(s, i5, len);
                        let is_x = key == String::from_str("x");
                        let is_y = key == String::from_str("y");
                        if is_x && x.is_none() {
                            if i6 < len && s.get_char(i6) == ',' {
                                parse_xy_members(s, i6 + 1, len, Some(v), y)
                            } else if i6 < len && s.get_char(i6) == '}' && y.is_some() {
                                let yv = y.unwrap();
                                Some(((v, yv), i6 + 1))
                            } else {
                                None
                            }
                        } else if is_y && y.is_none() {
                            if i6 < len && s.get_char(i6) == ',' {
                                parse_xy_members(s, i6 + 1, len, x, Some(v))
                            } else if i6 < len && s.get_char(i6) == '}' && x.is_some() {
                                let xv = x.unwrap();
                                Some(((xv, v), i6 + 1))
                            } else {
                                None
                            }
                        } else {
                            None
                        }
                    },
                }
            }
        },
    }
}

fn parse_point_at(s: &str, i: usize, len: usize) -> (r: Option<((i64, i64), usize)>)
    requires
        i <= s@.len(),
        len == s@.len(),
    ensures
        r matches Some(p) ==> spec_parse_point(s@, i as int) == Some(((p.0.0, p.0.1), p.1 as int))
            && p.1 <= len && level_coord_ok(p.0.0) && level_coord_ok(p.0.1),
        r is None ==> spec_parse_point(s@, i as int) is None,
{
    let i1 = skip_ws(s, i, len);
    if i1 < len && s.get_char(i1) == '{' {
        parse_xy_members(s, i1 + 1, len, None, None)
    } else {
        None
    }
}

/// The result of a block-member parse is within the document bound.
pub open spec fn block_ok(b: LevelBlockModel) -> bool {
    level_coord_ok(b.x) && level_coord_ok(b.y) && level_coord_ok(b.w) && level_coord_ok(b.h)
}

fn parse_block_members(
    s: &str,
    i: usize,
    len: usize,
    x: Option<i64>,
    y: Option<i64>,
    w: Option<i64>,
    h: Option<i64>,
) -> (r: Option<(LevelBlockModel, usize)>)
    requires
        i <= s@.len(),
        len == s@.len(),
        x matches Some(v) ==> level_coord_ok(v),
        y matches Some(v) ==> level_coord_ok(v),
        w matches Some(v) ==> level_coord_ok(v),
        h matches Some(v) ==> level_coord_ok(v),
    ensures
        r matches Some(p) ==> spec_parse_block_members(s@, i as int, x, y, w, h) == Some(
            (p.0, p.1 as int),
        ) && p.1 <= len && block_ok(p.0),
        r is None ==> spec_parse_block_members(s@, i as int, x, y, w, h) is None,
    decreases (if x is None { 1int } else { 0int }) + (if y is None { 1int } else { 0int }) + (
    if w is None { 1int } else { 0int }) + (if h is None { 1int } else { 0int }),
{
    let i1 = skip_ws(s, i, len);
    let parsed = parse_string_at(s, i1, len);
    match parsed {
        None => None,
        Some((key, i2)) => {
            let i3 = skip_ws(s, i2, len);
            if !(i3 < len && s.get_char(i3) == ':') {
                None
            } else {
                let i4 = skip_ws(s, i3 + 1, len);
                match parse_number_at(s, i4, len) {
                    None => None,
                    Some((v, i5)) => {
                        let i6 = skip_ws(s, i5, len);
                        let more = i6 < len && s.get_char(i6) == ',';
                        let done = i6 < len && s.get_char(i6) == '}';
                        let is_x = key == String::from_str("x");
                        let is_y = key == String::from_str("y");
                        let is_w = key == String::from_str("w");
                        let is_h = key == String::from_str("h");
                        if is_x && x.is_none() {
                            if more {
                                parse_block_members(s, i6 + 1, len, Some(v), y, w, h)
                            } else if done && y.is_some() && w.is_some() && h.is_some() {
                                Some(
                                    (
                                        LevelBlockModel {
                                            x: v,
                                            y: y.unwrap(),
                                            w: w.unwrap(),
                                            h: h.unwrap(),
                                        },
                                        i6 + 1,
                                    ),
                                )
                            } else {
                                None
                            }
                        } else if is_y && y.is_none() {
                            if more {
                                parse_block_members(s, i6 + 1, len, x, Some(v), w, h)
                            } else if done && x.is_some() && w.is_some() && h.is_some() {
                                Some(
                                    (
                                        LevelBlockModel {
                                            x: x.unwrap(),
                                            y: v,
                                            w: w.unwrap(),
                                            h: h.unwrap(),
                                        },
                                        i6 + 1,
                                    ),
                                )
                            } else {
                                None
                            }
                        } else if is_w && w.is_none() {
                            if more {
                                parse_block_members(s, i6 + 1, len, x, y, Some(v), h)
                            } else if done && x.is_some() && y.is_some() && h.is_some() {
                                Some(
                                    (
                                        LevelBlockModel {
                                            x: x.unwrap(),
                                            y: y.unwrap(),
                                            w: v,
                                            h: h.unwrap(),
                                        },
                                        i6 + 1,
                                    ),
                                )
                            } else {
                                None
                            }
                        } else if is_h && h.is_none() {
                            if more {
                                parse_block_members(s, i6 + 1, len, x, y, w, Some(v))
                            } else if done && x.is_some() && y.is_some() && w.is_some() {
                                Some(
                                    (
                                        LevelBlockModel {
                                            x: x.unwrap(),
                                            y: y.unwrap(),
                                            w: w.unwrap(),
                                            h: v,
                                        },
                                        i6 + 1,
                                    ),
                                )
                            } else {
                                None
                            }
                        } else {
                            None
                        }
                    },
                }
            }
        },
    }
}

fn parse_block_at(s: &str, i: usize, len: usize) -> (r: Option<(LevelBlockModel, usize)>)
    requires
        i <= s@.len(),
        len == s@.len(),
    ensures
        r matches Some(p) ==> spec_parse_block(s@, i as int) == Some((p.0, p.1 as int)) && p.1
            <= len && block_ok(p.0),
        r is None ==> spec_parse_block(s@, i as int) is None,
{
    let i1 = skip_ws(s, i, len);
    if i1 < len && s.get_char(i1) == '{' {
        parse_block_members(s, i1 + 1, len, None, None, None, None)
    } else {
        None
    }
}

/// The result of a circle-member parse is within the document bound.
pub open spec fn circle_ok(c: LevelCircleModel) -> bool {
    level_coord_ok(c.x) && level_coord_ok(c.y) && level_coord_ok(c.r)
}

fn parse_circle_members(
    s: &str,
    i: usize,
    len: usize,
    x: Option<i64>,
    y: Option<i64>,
    rr: Option<i64>,
) -> (r: Option<(LevelCircleModel, usize)>)
    requires
        i <= s@.len(),
        len == s@.len(),
        x matches Some(v) ==> level_coord_ok(v),
        y matches Some(v) ==> level_coord_ok(v),
        rr matches Some(v) ==> level_coord_ok(v),
    ensures
        r matches Some(p) ==> spec_parse_circle_members(s@, i as int, x, y, rr) == Some(
            (p.0, p.1 as int),
        ) && p.1 <= len && circle_ok(p.0),
        r is None ==> spec_parse_circle_members(s@, i as int, x, y, rr) is None,
    decreases (if x is None { 1int } else { 0int }) + (if y is None { 1int } else { 0int }) + (
    if rr is None { 1int } else { 0int }),
{
    let i1 = skip_ws(s, i, len);
    let parsed = parse_string_at(s, i1, len);
    match parsed {
        None => None,
        Some((key, i2)) => {
            let i3 = skip_ws(s, i2, len);
            if !(i3 < len && s.get_char(i3) == ':') {
                None
            } else {
                let i4 = skip_ws(s, i3 + 1, len);
                match parse_number_at(s, i4, len) {
                    None => None,
                    Some((v, i5)) => {
                        let i6 = skip_ws(s, i5, len);
                        let more = i6 < len && s.get_char(i6) == ',';
                        let done = i6 < len && s.get_char(i6) == '}';
                        let is_x = key == String::from_str("x");
                        let is_y = key == String::from_str("y");
                        let is_r = key == String::from_str("r");
                        if is_x && x.is_none() {
                            if more {
                                parse_circle_members(s, i6 + 1, len, Some(v), y, rr)
                            } else if done && y.is_some() && rr.is_some() {
                                Some(
                                    (
                                        LevelCircleModel { x: v, y: y.unwrap(), r: rr.unwrap() },
                                        i6 + 1,
                                    ),
                                )
                            } else {
                                None
                            }
                        } else if is_y && y.is_none() {
                            if more {
                                parse_circle_members(s, i6 + 1, len, x, Some(v), rr)
                            } else if done && x.is_some() && rr.is_some() {
                                Some(
                                    (
                                        LevelCircleModel { x: x.unwrap(), y: v, r: rr.unwrap() },
                                        i6 + 1,
                                    ),
                                )
                            } else {
                                None
                            }
                        } else if is_r && rr.is_none() {
                            if more {
                                parse_circle_members(s, i6 + 1, len, x, y, Some(v))
                            } else if done && x.is_some() && y.is_some() {
                                Some(
                                    (
                                        LevelCircleModel { x: x.unwrap(), y: y.unwrap(), r: v },
                                        i6 + 1,
                                    ),
                                )
                            } else {
                                None
                            }
                        } else {
                            None
                        }
                    },
                }
            }
        },
    }
}

fn parse_circle_at(s: &str, i: usize, len: usize) -> (r: Option<(LevelCircleModel, usize)>)
    requires
        i <= s@.len(),
        len == s@.len(),
    ensures
        r matches Some(p) ==> spec_parse_circle(s@, i as int) == Some((p.0, p.1 as int)) && p.1
            <= len && circle_ok(p.0),
        r is None ==> spec_parse_circle(s@, i as int) is None,
{
    let i1 = skip_ws(s, i, len);
    if i1 < len && s.get_char(i1) == '{' {
        parse_circle_members(s, i1 + 1, len, None, None, None)
    } else {
        None
    }
}

/// The result of an image-member parse is within the document bound and
/// carries a plain filename.
pub open spec fn image_ok(im: crate::level::LevelImageModel) -> bool {
    level_coord_ok(im.x) && level_coord_ok(im.y) && crate::level::filename_ok(im.filename@)
}

fn parse_image_members(
    s: &str,
    i: usize,
    len: usize,
    f: Option<String>,
    x: Option<i64>,
    y: Option<i64>,
) -> (r: Option<(crate::level::LevelImageModel, usize)>)
    requires
        i <= s@.len(),
        len == s@.len(),
        f matches Some(v) ==> crate::level::filename_ok(v@),
        x matches Some(v) ==> level_coord_ok(v),
        y matches Some(v) ==> level_coord_ok(v),
    ensures
        r matches Some(p) ==> spec_parse_image_members(
            s@,
            i as int,
            match f {
                Some(v) => Some(v@),
                None => None,
            },
            x,
            y,
        ) == Some((image_view(p.0), p.1 as int)) && p.1 <= len && image_ok(p.0),
        r is None ==> spec_parse_image_members(
            s@,
            i as int,
            match f {
                Some(v) => Some(v@),
                None => None,
            },
            x,
            y,
        ) is None,
    decreases (if f is None { 1int } else { 0int }) + (if x is None { 1int } else { 0int }) + (
    if y is None { 1int } else { 0int }),
{
    let i1 = skip_ws(s, i, len);
    let parsed = parse_string_at(s, i1, len);
    match parsed {
        None => None,
        Some((key, i2)) => {
            let i3 = skip_ws(s, i2, len);
            if !(i3 < len && s.get_char(i3) == ':') {
                None
            } else {
                let i4 = skip_ws(s, i3 + 1, len);
                let is_f = key == String::from_str("filename");
                let is_x = key == String::from_str("x");
                let is_y = key == String::from_str("y");
                if is_f && f.is_none() {
                    match parse_string_at(s, i4, len) {
                        None => None,
                        Some((name, i5)) => {
                            let i6 = skip_ws(s, i5, len);
                            if i6 < len && s.get_char(i6) == ',' {
                                parse_image_members(s, i6 + 1, len, Some(name), x, y)
                            } else if i6 < len && s.get_char(i6) == '}' && x.is_some()
                                && y.is_some() {
                                Some(
                                    (
                                        crate::level::LevelImageModel {
                                            filename: name,
                                            x: x.unwrap(),
                                            y: y.unwrap(),
                                        },
                                        i6 + 1,
                                    ),
                                )
                            } else {
                                None
                            }
                        },
                    }
                } else if is_x && x.is_none() {
                    match parse_number_at(s, i4, len) {
                        None => None,
                        Some((v, i5)) => {
                            let i6 = skip_ws(s, i5, len);
                            if i6 < len && s.get_char(i6) == ',' {
                                parse_image_members(s, i6 + 1, len, f, Some(v), y)
                            } else if i6 < len && s.get_char(i6) == '}' && f.is_some()
                                && y.is_some() {
                                Some(
                                    (
                                        crate::level::LevelImageModel {
                                            filename: f.unwrap(),
                                            x: v,
                                            y: y.unwrap(),
                                        },
                                        i6 + 1,
                                    ),
                                )
                            } else {
                                None
                            }
                        },
                    }
                } else if is_y && y.is_none() {
                    match parse_number_at(s, i4, len) {
                        None => None,
                        Some((v, i5)) => {
                            let i6 = skip_ws(s, i5, len);
                            if i6 < len && s.get_char(i6) == ',' {
                                parse_image_members(s, i6 + 1, len, f, x, Some(v))
                            } else if i6 < len && s.get_char(i6) == '}' && f.is_some()
                                && x.is_some() {
                                Some(
                                    (
                                        crate::level::LevelImageModel {
                                            filename: f.unwrap(),
                                            x: x.unwrap(),
                                            y: v,
                                        },
                                        i6 + 1,
                                    ),
                                )
                            } else {
                                None
                            }
                        },
                    }
                } else {
                    None
                }
            }
        },
    }
}

fn parse_image_at(s: &str, i: usize, len: usize) -> (r: Option<
    (crate::level::LevelImageModel, usize),
>)
    requires
        i <= s@.len(),
        len == s@.len(),
    ensures
        r matches Some(p) ==> spec_parse_image(s@, i as int) == Some((image_view(p.0), p.1 as int))
            && p.1 <= len && image_ok(p.0),
        r is None ==> spec_parse_image(s@, i as int) is None,
{
    let i1 = skip_ws(s, i, len);
    if i1 < len && s.get_char(i1) == '{' {
        parse_image_members(s, i1 + 1, len, None, None, None)
    } else {
        None
    }
}

fn parse_blocks_items_at(s: &str, i: usize, len: usize, acc: Vec<LevelBlockModel>) -> (r: Option<
    (Vec<LevelBlockModel>, usize),
>)
    requires
        i <= s@.len(),
        len == s@.len(),
        forall|k: int| 0 <= k < acc@.len() ==> block_ok(#[trigger] acc@[k]),
    ensures
        r matches Some(p) ==> spec_parse_blocks_items(s@, i as int, acc@) == Some(
            (p.0@, p.1 as int),
        ) && p.1 <= len && (forall|k: int| 0 <= k < p.0@.len() ==> block_ok(#[trigger] p.0@[k])),
        r is None ==> spec_parse_blocks_items(s@, i as int, acc@) is None,
    decreases s@.len() - i,
{
    match parse_block_at(s, i, len) {
        None => None,
        Some((b, j)) => {
            let j1 = skip_ws(s, j, len);
            if j1 < len && s.get_char(j1) == ',' {
                if j1 + 1 <= i {
                    None
                } else {
                    let mut acc = acc;
                    acc.push(b);
                    parse_blocks_items_at(s, j1 + 1, len, acc)
                }
            } else if j1 < len && s.get_char(j1) == ']' {
                let mut acc = acc;
                acc.push(b);
                Some((acc, j1 + 1))
            } else {
                None
            }
        },
    }
}

fn parse_blocks_at(s: &str, i: usize, len: usize) -> (r: Option<(Vec<LevelBlockModel>, usize)>)
    requires
        i <= s@.len(),
        len == s@.len(),
    ensures
        r matches Some(p) ==> spec_parse_blocks(s@, i as int) == Some((p.0@, p.1 as int)) && p.1
            <= len && (forall|k: int| 0 <= k < p.0@.len() ==> block_ok(#[trigger] p.0@[k])),
        r is None ==> spec_parse_blocks(s@, i as int) is None,
{
    let i1 = skip_ws(s, i, len);
    if i1 < len && s.get_char(i1) == '[' {
        let i2 = skip_ws(s, i1 + 1, len);
        if i2 < len && s.get_char(i2) == ']' {
            let acc: Vec<LevelBlockModel> = Vec::new();
            proof {
                assert(acc@ =~= Seq::<LevelBlockModel>::empty());
            }
            Some((acc, i2 + 1))
        } else {
            let acc: Vec<LevelBlockModel> = Vec::new();
            proof {
                assert(acc@ =~= Seq::<LevelBlockModel>::empty());
            }
            parse_blocks_items_at(s, i1 + 1, len, acc)
        }
    } else {
        None
    }
}

fn parse_circles_items_at(s: &str, i: usize, len: usize, acc: Vec<LevelCircleModel>) -> (r: Option<
    (Vec<LevelCircleModel>, usize),
>)
    requires
        i <= s@.len(),
        len == s@.len(),
        forall|k: int| 0 <= k < acc@.len() ==> circle_ok(#[trigger] acc@[k]),
    ensures
        r matches Some(p) ==> spec_parse_circles_items(s@, i as int, acc@) == Some(
            (p.0@, p.1 as int),
        ) && p.1 <= len && (forall|k: int| 0 <= k < p.0@.len() ==> circle_ok(#[trigger] p.0@[k])),
        r is None ==> spec_parse_circles_items(s@, i as int, acc@) is None,
    decreases s@.len() - i,
{
    match parse_circle_at(s, i, len) {
        None => None,
        Some((c, j)) => {
            let j1 = skip_ws(s, j, len);
            if j1 < len && s.get_char(j1) == ',' {
                if j1 + 1 <= i {
                    None
                } else {
                    let mut acc = acc;
                    acc.push(c);
                    parse_circles_items_at(s, j1 + 1, len, acc)
                }
            } else if j1 < len && s.get_char(j1) == ']' {
                let mut acc = acc;
                acc.push(c);
                Some((acc, j1 + 1))
            } else {
                None
            }
        },
    }
}

fn parse_circles_at(s: &str, i: usize, len: usize) -> (r: Option<(Vec<LevelCircleModel>, usize)>)
    requires
        i <= s@.len(),
        len == s@.len(),
    ensures
        r matches Some(p) ==> spec_parse_circles(s@, i as int) == Some((p.0@, p.1 as int)) && p.1
            <= len && (forall|k: int| 0 <= k < p.0@.len() ==> circle_ok(#[trigger] p.0@[k])),
        r is None ==> spec_parse_circles(s@, i as int) is None,
{
    let i1 = skip_ws(s, i, len);
    if i1 < len && s.get_char(i1) == '[' {
        let i2 = skip_ws(s, i1 + 1, len);
        if i2 < len && s.get_char(i2) == ']' {
            let acc: Vec<LevelCircleModel> = Vec::new();
            proof {
                assert(acc@ =~= Seq::<LevelCircleModel>::empty());
            }
            Some((acc, i2 + 1))
        } else {
            let acc: Vec<LevelCircleModel> = Vec::new();
            proof {
                assert(acc@ =~= Seq::<LevelCircleModel>::empty());
            }
            parse_circles_items_at(s, i1 + 1, len, acc)
        }
    } else {
        None
    }
}

fn parse_images_items_at(
    s: &str,
    i: usize,
    len: usize,
    acc: Vec<crate::level::LevelImageModel>,
) -> (r: Option<(Vec<crate::level::LevelImageModel>, usize)>)
    requires
        i <= s@.len(),
        len == s@.len(),
        forall|k: int| 0 <= k < acc@.len() ==> image_ok(#[trigger] acc@[k]),
    ensures
        r matches Some(p) ==> spec_parse_images_items(
            s@,
            i as int,
            acc@.map_values(|im: crate::level::LevelImageModel| image_view(im)),
        ) == Some(
            (p.0@.map_values(|im: crate::level::LevelImageModel| image_view(im)), p.1 as int),
        ) && p.1 <= len && (forall|k: int| 0 <= k < p.0@.len() ==> image_ok(#[trigger] p.0@[k])),
        r is None ==> spec_parse_images_items(
            s@,
            i as int,
            acc@.map_values(|im: crate::level::LevelImageModel| image_view(im)),
        ) is None,
    decreases s@.len() - i,
{
    match parse_image_at(s, i, len) {
        None => None,
        Some((im, j)) => {
            let j1 = skip_ws(s, j, len);
            if j1 < len && s.get_char(j1) == ',' {
                if j1 + 1 <= i {
                    None
                } else {
                    let mut acc2 = acc;
                    acc2.push(im);
                    proof {
                        assert(acc2@.map_values(|q: crate::level::LevelImageModel| image_view(q))
                            =~= acc@.map_values(|q: crate::level::LevelImageModel| image_view(
                            q,
                        )).push(image_view(acc2@[acc2@.len() - 1])));
                    }
                    parse_images_items_at(s, j1 + 1, len, acc2)
                }
            } else if j1 < len && s.get_char(j1) == ']' {
                let mut acc2 = acc;
                acc2.push(im);
                proof {
                    assert(acc2@.map_values(|q: crate::level::LevelImageModel| image_view(q))
                        =~= acc@.map_values(|q: crate::level::LevelImageModel| image_view(q)).push(
                        image_view(acc2@[acc2@.len() - 1])));
                }
                Some((acc2, j1 + 1))
            } else {
                None
            }
        },
    }
}

fn parse_images_at(s: &str, i: usize, len: usize) -> (r: Option<
    (Vec<crate::level::LevelImageModel>, usize),
>)
    requires
        i <= s@.len(),
        len == s@.len(),
    ensures
        r matches Some(p) ==> spec_parse_images(s@, i as int) == Some(
            (p.0@.map_values(|im: crate::level::LevelImageModel| image_view(im)), p.1 as int),
        ) && p.1 <= len && (forall|k: int| 0 <= k < p.0@.len() ==> image_ok(#[trigger] p.0@[k])),
        r is None ==> spec_parse_images(s@, i as int) is None,
{
    let i1 = skip_ws(s, i, len);
    if i1 < len && s.get_char(i1) == '[' {
        let i2 = skip_ws(s, i1 + 1, len);
        if i2 < len && s.get_char(i2) == ']' {
            let acc: Vec<crate::level::LevelImageModel> = Vec::new();
            proof {
                assert(acc@.map_values(|im: crate::level::LevelImageModel| image_view(im)) =~= Seq::<
                    ImageView,
                >::empty());
            }
            Some((acc, i2 + 1))
        } else {
            let acc: Vec<crate::level::LevelImageModel> = Vec::new();
            proof {
                assert(acc@.map_values(|im: crate::level::LevelImageModel| image_view(im)) =~= Seq::<
                    ImageView,
                >::empty());
            }
            parse_images_items_at(s, i1 + 1, len, acc)
        }
    } else {
        None
    }
}

fn parse_level_members_at(
    s: &str,
    i: usize,
    len: usize,
    p: Option<LevelPlayerModel>,
    g: Option<LevelGoalModel>,
    bs: Option<Vec<LevelBlockModel>>,
    cs: Option<Vec<LevelCircleModel>>,
    ims: Option<Vec<crate::level::LevelImageModel>>,
) -> (r: Option<(crate::level::LevelModel, usize)>)
    requires
        i <= s@.len(),
        len == s@.len(),
        p matches Some(v) ==> level_coord_ok(v.x) && level_coord_ok(v.y),
        g matches Some(v) ==> level_coord_ok(v.x) && level_coord_ok(v.y),
        bs matches Some(v) ==> forall|k: int| 0 <= k < v@.len() ==> block_ok(#[trigger] v@[k]),
        cs matches Some(v) ==> forall|k: int| 0 <= k < v@.len() ==> circle_ok(#[trigger] v@[k]),
        ims matches Some(v) ==> forall|k: int| 0 <= k < v@.len() ==> image_ok(#[trigger] v@[k]),
    ensures
        r matches Some(q) ==> spec_parse_level_members(
            s@,
            i as int,
            p,
            g,
            spec_opt_blocks(bs),
            spec_opt_circles(cs),
            spec_opt_images(ims),
        ) == Some((view_of_level(q.0), q.1 as int)) && q.1 <= len && crate::level::level_wf(q.0),
        r is None ==> spec_parse_level_members(
            s@,
            i as int,
            p,
            g,
            spec_opt_blocks(bs),
            spec_opt_circles(cs),
            spec_opt_images(ims),
        ) is None,
    decreases (if p is None { 1int } else { 0int }) + (if g is None { 1int } else { 0int }) + (
    if bs is None { 1int } else { 0int }) + (if cs is None { 1int } else { 0int }) + (if ims
        is None { 1int } else { 0int }), 0int,
{
    let i1 = skip_ws(s, i, len);
    let parsed = parse_string_at(s, i1, len);
    match parsed {
        None => None,
        Some((key, i2)) => {
            let i3 = skip_ws(s, i2, len);
            if !(i3 < len && s.get_char(i3) == ':') {
                None
            } else {
                let i4 = i3 + 1;
                let is_player = key == String::from_str("player");
                let is_goal = key == String::from_str("goal");
                let is_blocks = key == String::from_str("danger_blocks");
                let is_circles = key == String::from_str("danger_circles");
                let is_images = key == String::from_str("images");
                if is_player && p.is_none() {
                    match parse_point_at(s, i4, len) {
                        None => None,
                        Some(((x, y), i5)) => parse_level_next_at(
                            s,
                            i5,
                            len,
                            Some(LevelPlayerModel { x, y }),
                            g,
                            bs,
                            cs,
                            ims,
                        ),
                    }
                } else if is_goal && g.is_none() {
                    match parse_point_at(s, i4, len) {
                        None => None,
                        Some(((x, y), i5)) => parse_level_next_at(
                            s,
                            i5,
                            len,
                            p,
                            Some(LevelGoalModel { x, y }),
                            bs,
                            cs,
                            ims,
                        ),
                    }
                } else if is_blocks && bs.is_none() {
                    match parse_blocks_at(s, i4, len) {
                        None => None,
                        Some((v, i5)) => parse_level_next_at(s, i5, len, p, g, Some(v), cs, ims),
                    }
                } else if is_circles && cs.is_none() {
                    match parse_circles_at(s, i4, len) {
                        None => None,
                        Some((v, i5)) => parse_level_next_at(s, i5, len, p, g, bs, Some(v), ims),
                    }
                } else if is_images && ims.is_none() {
                    match parse_images_at(s, i4, len) {
                        None => None,
                        Some((v, i5)) => parse_level_next_at(s, i5, len, p, g, bs, cs, Some(v)),
                    }
                } else {
                    None
                }
            }
        },
    }
}

/// The ghost content of an optional parsed block array.
pub open spec fn spec_opt_blocks(v: Option<Vec<LevelBlockModel>>) -> Option<
    Seq<LevelBlockModel>,
> {
    match v {
        Some(w) => Some(w@),
        None => None,
    }
}

/// The ghost content of an optional parsed circle array.
pub open spec fn spec_opt_circles(v: Option<Vec<LevelCircleModel>>) -> Option<
    Seq<LevelCircleModel>,
> {
    match v {
        Some(w) => Some(w@),
        None => None,
    }
}

/// The ghost content of an optional parsed image array.
pub open spec fn spec_opt_images(v: Option<Vec<crate::level::LevelImageModel>>) -> Option<
    Seq<ImageView>,
> {
    match v {
        Some(w) => Some(w@.map_values(|im: crate::level::LevelImageModel| image_view(im))),
        None => None,
    }
}

fn parse_level_next_at(
    s: &str,
    i: usize,
    len: usize,
    p: Option<LevelPlayerModel>,
    g: Option<LevelGoalModel>,
    bs: Option<Vec<LevelBlockModel>>,
    cs: Option<Vec<LevelCircleModel>>,
    ims: Option<Vec<crate::level::LevelImageModel>>,
) -> (r: Option<(crate::level::LevelModel, usize)>)
    requires
        i <= s@.len(),
        len == s@.len(),
        p matches Some(v) ==> level_coord_ok(v.x) && level_coord_ok(v.y),
        g matches Some(v) ==> level_coord_ok(v.x) && level_coord_ok(v.y),
        bs matches Some(v) ==> forall|k: int| 0 <= k < v@.len() ==> block_ok(#[trigger] v@[k]),
        cs matches Some(v) ==> forall|k: int| 0 <= k < v@.len() ==> circle_ok(#[trigger] v@[k]),
        ims matches Some(v) ==> forall|k: int| 0 <= k < v@.len() ==> image_ok(#[trigger] v@[k]),
    ensures
        r matches Some(q) ==> spec_parse_level_next(
            s@,
            i as int,
            p,
            g,
            spec_opt_blocks(bs),
            spec_opt_circles(cs),
            spec_opt_images(ims),
        ) == Some((view_of_level(q.0), q.1 as int)) && q.1 <= len && crate::level::level_wf(q.0),
        r is None ==> spec_parse_level_next(
            s@,
            i as int,
            p,
            g,
            spec_opt_blocks(bs),
            spec_opt_circles(cs),
            spec_opt_images(ims),
        ) is None,
    decreases (if p is None { 1int } else { 0int }) + (if g is None { 1int } else { 0int }) + (
    if bs is None { 1int } else { 0int }) + (if cs is None { 1int } else { 0int }) + (if ims
        is None { 1int } else { 0int }), 1int,
{
    let i6 = skip_ws(s, i, len);
    if i6 < len && s.get_char(i6) == ',' {
        parse_level_members_at(s, i6 + 1, len, p, g, bs, cs, ims)
    } else if i6 < len && s.get_char(i6) == '}' && p.is_some() && g.is_some() && bs.is_some()
        && cs.is_some() && ims.is_some() {
        let m = crate::level::LevelModel {
            player: p.unwrap(),
            goal: g.unwrap(),
            danger_blocks: bs.unwrap(),
            danger_circles: cs.unwrap(),
            images: ims.unwrap(),
        };
        Some((m, i6 + 1))
    } else {
        None
    }
}

/// Parse a whole level document.  `Some` is returned exactly when the
/// text is a well-formed document, and the returned model carries its
/// exact values.
pub fn parse_level(s: &str) -> (r: Option<crate::level::LevelModel>)
    ensures
        r matches Some(m) ==> spec_parse_level(s@) == Some(view_of_level(m))
            && crate::level::level_wf(m),
        r is None ==> spec_parse_level(s@) is None,
{
    let len = s.unicode_len();
    let i1 = skip_ws(s, 0, len);
    if i1 < len && s.get_char(i1) == '{' {
        match parse_level_members_at(s, i1 + 1, len, None, None, None, None, None) {
            None => None,
            Some((m, j)) => {
                let j2 = skip_ws(s, j, len);
                if j2 == len {
                    Some(m)
                } else {
                    None
                }
            },
        }
    } else {
        None
    }
}

/// Render a level model as its canonical document text.
#[verifier::rlimit(100)]
fn ser_level_hazards(m: &crate::level::LevelModel) -> (out: String)
    requires
        crate::level::level_wf(*m),
    ensures
        out@ == ",\"danger_blocks\":["@ + spec_ser_blocks_items(m.danger_blocks@)
            + "],\"danger_circles\":["@ + spec_ser_circles_items(m.danger_circles@),
{
    let mut s = String::from_str(",\"danger_blocks\":[");
    s.append(ser_blocks_items(&m.danger_blocks, 0).as_str());
    s.append("],\"danger_circles\":[");
    s.append(ser_circles_items(&m.danger_circles, 0).as_str());
    proof {
        assert(m.danger_blocks@.skip(0) =~= m.danger_blocks@);
        assert(m.danger_circles@.skip(0) =~= m.danger_circles@);
    }
    s
}

fn ser_level_images(m: &crate::level::LevelModel) -> (out: String)
    requires
        crate::level::level_wf(*m),
    ensures
        out@ == "],\"images\":["@ + spec_ser_images_items(
            m.images@.map_values(|im: crate::level::LevelImageModel| image_view(im)),
        ) + "]}"@,
{
    let mut s = String::from_str("],\"images\":[");
    s.append(ser_images_items(&m.images, 0).as_str());
    s.append("]}");
    proof {
        assert(m.images@.skip(0) =~= m.images@);
    }
    s
}

/// Gluing the four rendered sections together yields the canonical
/// document text.
#[verifier::spinoff_prover]
#[verifier::rlimit(100)]
proof fn lemma_assemble_level(v: LevelView, a: Seq<char>, b: Seq<char>, c: Seq<char>, d: Seq<char>)
    requires
        a == spec_ser_point(v.player.x, v.player.y),
        b == spec_ser_point(v.goal.x, v.goal.y),
        c == ",\"danger_blocks\":["@ + spec_ser_blocks_items(v.blocks)
            + "],\"danger_circles\":["@ + spec_ser_circles_items(v.circles),
        d == "],\"images\":["@ + spec_ser_images_items(v.images) + "]}"@,
    ensures
        "{\"player\":"@ + a + ",\"goal\":"@ + b + c + d == spec_ser_level(v),
{
}

pub fn level_to_json(m: &crate::level::LevelModel) -> (out: String)
    requires
        crate::level::level_wf(*m),
    ensures
        out@ == spec_ser_level(view_of_level(*m)),
{
    let mut s = String::from_str("{\"player\":");
    let pa = ser_point(m.player.x, m.player.y);
    s.append(pa.as_str());
    s.append(",\"goal\":");
    let pb = ser_point(m.goal.x, m.goal.y);
    s.append(pb.as_str());
    let pc = ser_level_hazards(m);
    s.append(pc.as_str());
    let pd = ser_level_images(m);
    s.append(pd.as_str());
    proof {
        lemma_assemble_level(view_of_level(*m), pa@, pb@, pc@, pd@);
    }
    s
}

} // verus!
