//! Colours as model files write them: `#RRGGBB` / `#RRGGBBAA` hex codes,
//! and the filament references of painted 3MF triangles.

use vstd::prelude::*;

use crate::mesh::Rgba8;
use crate::numbers::{parse_hex_u32, parse_hex_u32_spec, parse_hex_u8, parse_hex_u8_spec};
use crate::text::{
    char_pred, chars_of, copy_chars, eq_chars, trim, trim_end_by, trim_start_by, trim_white,
};

verus! {

/// Every character is ASCII.
pub open spec fn all_ascii(s: Seq<char>) -> bool {
    forall|i: int| 0 <= i < s.len() ==> #[trigger] s[i] < '\u{80}'
}

/// The hex code of a colour, after trimming blanks and leading `#`:
/// six digits (opaque) or eight (with alpha), two per component, each pair
/// read as `u8::from_str_radix(_, 16)` reads it.
pub open spec fn hex_color(s: Seq<char>) -> Option<Rgba8> {
    let t = trim_start_by(trim(s), char_pred('#'));
    if !all_ascii(t) {
        None
    } else if t.len() == 6 || t.len() == 8 {
        let r = parse_hex_u8_spec(t.subrange(0, 2));
        let g = parse_hex_u8_spec(t.subrange(2, 4));
        let b = parse_hex_u8_spec(t.subrange(4, 6));
        let a = if t.len() == 8 {
            parse_hex_u8_spec(t.subrange(6, 8))
        } else {
            Some(255u8)
        };
        if r is Some && g is Some && b is Some && a is Some {
            Some(Rgba8 { r: r->0, g: g->0, b: b->0, a: a->0 })
        } else {
            None
        }
    } else {
        None
    }
}

fn sub_chars(s: &Vec<char>, from: usize, to: usize) -> (res: Vec<char>)
    requires
        from <= to <= s.len(),
    ensures
        res@ == s@.subrange(from as int, to as int),
{
    let mut out: Vec<char> = Vec::new();
    let mut i: usize = from;
    while i < to
        invariant
            from <= i <= to <= s.len(),
            out@ == s@.subrange(from as int, i as int),
        decreases to - i,
    {
        out.push(s[i]);
        assert(out@ =~= s@.subrange(from as int, i + 1));
        i = i + 1;
    }
    out
}

proof fn lemma_trim_start_skip_all(s: Seq<char>, ch: char, i: int)
    requires
        0 <= i <= s.len(),
        forall|j: int| 0 <= j < i ==> #[trigger] s[j] == ch,
        i < s.len() ==> s[i] != ch,
    ensures
        trim_start_by(s, char_pred(ch)) == s.subrange(i, s.len() as int),
    decreases i,
{
    if i > 0 {
        assert(s.drop_first().subrange(i - 1, s.drop_first().len() as int) =~= s.subrange(
            i,
            s.len() as int,
        ));
        lemma_trim_start_skip_all(s.drop_first(), ch, i - 1);
    } else {
        assert(s.subrange(0, s.len() as int) =~= s);
    }
}

/// `s` without leading `ch` (`str::trim_start_matches`).
pub fn trim_start_char(s: &Vec<char>, ch: char) -> (res: Vec<char>)
    ensures
        res@ == trim_start_by(s@, char_pred(ch)),
{
    let mut i: usize = 0;
    while i < s.len() && s[i] == ch
        invariant
            i <= s.len(),
            forall|j: int| 0 <= j < i ==> #[trigger] s@[j] == ch,
        decreases s.len() - i,
    {
        i = i + 1;
    }
    proof {
        lemma_trim_start_skip_all(s@, ch, i as int);
    }
    sub_chars(s, i, s.len())
}

proof fn lemma_trim_end_skip_all(s: Seq<char>, ch: char, k: int)
    requires
        0 <= k <= s.len(),
        forall|j: int| k <= j < s.len() ==> #[trigger] s[j] == ch,
        k > 0 ==> s[k - 1] != ch,
    ensures
        trim_end_by(s, char_pred(ch)) == s.subrange(0, k),
    decreases s.len() - k,
{
    if k < s.len() {
        assert(s.drop_last().subrange(0, k) =~= s.subrange(0, k));
        lemma_trim_end_skip_all(s.drop_last(), ch, k);
    } else {
        assert(s.subrange(0, k) =~= s);
    }
}

/// `s` without trailing `ch` (`str::trim_end_matches`).
pub fn trim_end_char(s: &Vec<char>, ch: char) -> (res: Vec<char>)
    ensures
        res@ == trim_end_by(s@, char_pred(ch)),
{
    let mut k: usize = s.len();
    while k > 0 && s[k - 1] == ch
        invariant
            k <= s.len(),
            forall|j: int| k <= j < s.len() ==> #[trigger] s@[j] == ch,
        decreases k,
    {
        k = k - 1;
    }
    proof {
        lemma_trim_end_skip_all(s@, ch, k as int);
    }
    sub_chars(s, 0, k)
}

/// Reads a hex colour code (see `hex_color`).
pub fn parse_hex_color(s: &Vec<char>) -> (res: Option<Rgba8>)
    ensures
        res == hex_color(s@),
{
    let t0 = trim_white(s);
    let t = trim_start_char(&t0, '#');
    let mut i: usize = 0;
    while i < t.len()
        invariant
            i <= t.len(),
            t@ == trim_start_by(trim(s@), char_pred('#')),
            forall|j: int| 0 <= j < i ==> #[trigger] t@[j] < '\u{80}',
        decreases t.len() - i,
    {
        if t[i] >= '\u{80}' {
            assert(!all_ascii(t@)) by {
                assert(!(t@[i as int] < '\u{80}'));
            }
            return None;
        }
        i = i + 1;
    }
    if t.len() != 6 && t.len() != 8 {
        return None;
    }
    let r = parse_hex_u8(&sub_chars(&t, 0, 2));
    let g = parse_hex_u8(&sub_chars(&t, 2, 4));
    let b = parse_hex_u8(&sub_chars(&t, 4, 6));
    let a = if t.len() == 8 {
        parse_hex_u8(&sub_chars(&t, 6, 8))
    } else {
        Some(255u8)
    };
    match (r, g, b, a) {
        (Some(r), Some(g), Some(b), Some(a)) => Some(Rgba8 { r, g, b, a }),
        _ => None,
    }
}

/// The index into the filament table that a paint code selects, when the
/// code is not a colour itself: `4`, `8`, `0C`/`0` and `1C` name the first
/// four filaments; other codes, without trailing `C`s and then `c`s, are
/// read as hex numbers `v` and select `v`, `v / 4` or `v mod n`, the first
/// that is in range.
pub open spec fn paint_index(t: Seq<char>, n: nat) -> Option<int> {
    if t == "4"@ {
        Some(0)
    } else if t == "8"@ {
        Some(1)
    } else if t == "0C"@ || t == "0"@ {
        Some(2)
    } else if t == "1C"@ {
        Some(3)
    } else {
        let c = trim_end_by(trim_end_by(t, char_pred('C')), char_pred('c'));
        match parse_hex_u32_spec(c) {
            Some(v) => if v < n {
                Some(v as int)
            } else if (v / 4) < n {
                Some((v / 4) as int)
            } else {
                Some((v as nat % n) as int)
            },
            None => None,
        }
    }
}

/// The colour of a painted triangle: a hex code, or a filament reference
/// into the filament colours of the project settings.
pub open spec fn paint_color(s: Seq<char>, filaments: Seq<Rgba8>) -> Option<Rgba8> {
    let t = trim(s);
    if t.len() == 0 {
        None
    } else if hex_color(t) is Some {
        hex_color(t)
    } else if filaments.len() == 0 {
        None
    } else {
        match paint_index(t, filaments.len()) {
            Some(i) => if 0 <= i < filaments.len() {
                Some(filaments[i])
            } else {
                None
            },
            None => None,
        }
    }
}

/// Resolves the colour of a painted triangle (see `paint_color`).
pub fn resolve_paint_color(s: &Vec<char>, filaments: &Vec<Rgba8>) -> (res: Option<Rgba8>)
    ensures
        res == paint_color(s@, filaments@),
{
    let t = trim_white(s);
    if t.len() == 0 {
        return None;
    }
    if let Some(c) = parse_hex_color(&t) {
        return Some(c);
    }
    let n = filaments.len();
    if n == 0 {
        return None;
    }
    let idx: Option<usize> = if eq_chars(&t, "4") {
        Some(0)
    } else if eq_chars(&t, "8") {
        Some(1)
    } else if eq_chars(&t, "0C") || eq_chars(&t, "0") {
        Some(2)
    } else if eq_chars(&t, "1C") {
        Some(3)
    } else {
        let c = trim_end_char(&trim_end_char(&t, 'C'), 'c');
        match parse_hex_u32(&c) {
            Some(v) => {
                let vu = v as usize;
                if vu < n {
                    Some(vu)
                } else if ((v >> 2) as usize) < n {
                    assert((v >> 2) == v / 4) by (bit_vector);
                    Some((v >> 2) as usize)
                } else {
                    assert((v >> 2) == v / 4) by (bit_vector);
                    Some(vu % n)
                }
            },
            None => None,
        }
    };
    match idx {
        Some(i) => if i < n {
            Some(filaments[i])
        } else {
            None
        },
        None => None,
    }
}

} // verus!
