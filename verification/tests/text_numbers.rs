use mesh_viewer::color::{parse_hex_color, resolve_paint_color, trim_end_char, trim_start_char};
use mesh_viewer::mesh::Rgba8;
use mesh_viewer::numbers::{
    eq_ignore_case, eq_ignore_case_str, is_float_text, parse_hex_u32, parse_hex_u8, parse_i32,
    parse_u32, parse_u32_str,
};
use mesh_viewer::text::{
    ends_with_chars, find_chars, replace_char_vec, split_lines, split_words, starts_with_chars,
    trim_matching, trim_white,
};

fn cv(s: &str) -> Vec<char> {
    s.chars().collect()
}

fn rgba(r: u8, g: u8, b: u8, a: u8) -> Rgba8 {
    Rgba8 { r, g, b, a }
}

#[test]
fn integers_parse_like_from_str() {
    let cases = ["0", "42", "-17", "+8", "-", "+", "", "12a", "2147483647", "2147483648",
        "-2147483648", "-2147483649", " 1", "007", "-0", "+-1"];
    for s in cases {
        assert_eq!(parse_i32(&cv(s)), s.parse::<i32>().ok(), "i32 {:?}", s);
        assert_eq!(parse_u32(&cv(s)), s.parse::<u32>().ok(), "u32 {:?}", s);
        assert_eq!(parse_u32_str(s), s.parse::<u32>().ok(), "u32 str {:?}", s);
    }
    assert_eq!(parse_u32(&cv("4294967295")), Some(u32::MAX));
    assert_eq!(parse_u32(&cv("4294967296")), None);
}

#[test]
fn hex_numbers_parse_like_from_str_radix() {
    let cases = ["ff", "FF", "0", "100", "+1f", "g1", "", "7fffffff", "ffffffff", "100000000", "Ab"];
    for s in cases {
        assert_eq!(parse_hex_u8(&cv(s)), u8::from_str_radix(s, 16).ok(), "u8 {:?}", s);
        assert_eq!(parse_hex_u32(&cv(s)), u32::from_str_radix(s, 16).ok(), "u32 {:?}", s);
    }
}

#[test]
fn float_syntax_matches_f32_from_str() {
    let cases = ["1", "1.", ".5", "-0.25", "+3e4", "2E-3", "1e", "e5", ".", "-.", "1.2.3", "inf",
        "-Infinity", "NaN", "nan1", "0x10", "1_000", "", "+", "12.5e+07", "1e+", "INF", "in"];
    for s in cases {
        assert_eq!(is_float_text(&cv(s)), s.parse::<f32>().is_ok(), "{:?}", s);
    }
}

#[test]
fn ascii_case_folding() {
    assert!(eq_ignore_case(&cv("GLB"), &cv("glb")));
    assert!(!eq_ignore_case(&cv("glb"), &cv("glbx")));
    assert!(eq_ignore_case_str(&cv("StL"), "sTl"));
    assert!(!eq_ignore_case_str(&cv("É"), "é"));
}

#[test]
fn hex_colors() {
    assert_eq!(parse_hex_color(&cv("#FF8000")), Some(rgba(255, 128, 0, 255)));
    assert_eq!(parse_hex_color(&cv("  ##00112233 ")), Some(rgba(0, 0x11, 0x22, 0x33)));
    assert_eq!(parse_hex_color(&cv("abcdef")), Some(rgba(0xab, 0xcd, 0xef, 255)));
    assert_eq!(parse_hex_color(&cv("#12345")), None);
    assert_eq!(parse_hex_color(&cv("#GG0000")), None);
    assert_eq!(parse_hex_color(&cv("#1234567")), None);
    assert_eq!(parse_hex_color(&cv("#é12345")), None);
    assert_eq!(parse_hex_color(&cv("")), None);
}

#[test]
fn paint_codes_pick_filaments() {
    let f = vec![rgba(1, 0, 0, 255), rgba(2, 0, 0, 255), rgba(3, 0, 0, 255), rgba(4, 0, 0, 255)];
    assert_eq!(resolve_paint_color(&cv("4"), &f), Some(f[0]));
    assert_eq!(resolve_paint_color(&cv("8"), &f), Some(f[1]));
    assert_eq!(resolve_paint_color(&cv("0C"), &f), Some(f[2]));
    assert_eq!(resolve_paint_color(&cv("0"), &f), Some(f[2]));
    assert_eq!(resolve_paint_color(&cv("1C"), &f), Some(f[3]));
    // 5 is out of range, 5 / 4 = 1 is in range
    assert_eq!(resolve_paint_color(&cv("5"), &f), Some(f[1]));
    // trailing C is dropped: 2
    assert_eq!(resolve_paint_color(&cv(" 2C "), &f), Some(f[2]));
    // 0x40 = 64: 64 / 4 = 16 is out of range, 64 mod 4 = 0
    assert_eq!(resolve_paint_color(&cv("40"), &f), Some(f[0]));
    assert_eq!(resolve_paint_color(&cv("#00FF00"), &f), Some(rgba(0, 255, 0, 255)));
    assert_eq!(resolve_paint_color(&cv("zz"), &f), None);
    assert_eq!(resolve_paint_color(&cv("   "), &f), None);
    assert_eq!(resolve_paint_color(&cv("4"), &vec![]), None);
    assert_eq!(resolve_paint_color(&cv("#0000FF"), &vec![]), Some(rgba(0, 0, 255, 255)));
}

#[test]
fn trimming() {
    assert_eq!(trim_white(&cv(" \t a b \n")), cv("a b"));
    assert_eq!(trim_white(&cv("\u{3000}x\u{a0}")), cv("x"));
    assert_eq!(trim_start_char(&cv("##ab#"), '#'), cv("ab#"));
    assert_eq!(trim_end_char(&cv("1CCc"), 'c'), cv("1CC"));
    assert_eq!(trim_end_char(&cv("1CC"), 'C'), cv("1"));
    assert_eq!(trim_matching(&cv("\"x\"\""), '"'), cv("x"));
    for s in ["", "  ", " a ", "\u{2003}b\u{85}", "c\r"] {
        assert_eq!(trim_white(&cv(s)), cv(s.trim()));
    }
}

#[test]
fn words_and_lines() {
    let w = split_words(&cv("  v 1.0\t-2  3 "));
    assert_eq!(w, vec![cv("v"), cv("1.0"), cv("-2"), cv("3")]);
    assert_eq!(split_words(&cv("   ")), Vec::<Vec<char>>::new());
    let s = "f 1/2/3 4//5\u{2003}6";
    let expect: Vec<Vec<char>> = s.split_whitespace().map(cv).collect();
    assert_eq!(split_words(&cv(s)), expect);

    let lines = split_lines(b"a\nb\r\n\nc");
    assert_eq!(lines, vec![b"a\n".to_vec(), b"b\r\n".to_vec(), b"\n".to_vec(), b"c".to_vec()]);
    assert_eq!(split_lines(b""), Vec::<Vec<u8>>::new());
}

#[test]
fn searching() {
    assert_eq!(find_chars(&cv("3D/3dmodel.model"), ".model"), Some(10));
    assert_eq!(find_chars(&cv("abc"), "x"), None);
    assert_eq!(find_chars(&cv("aaa"), "aa"), Some(0));
    assert!(starts_with_chars(&cv("pt-br"), "pt"));
    assert!(!starts_with_chars(&cv("p"), "pt"));
    assert!(ends_with_chars(&cv("x.config"), ".config"));
    assert!(!ends_with_chars(&cv("config"), ".config"));
    assert_eq!(replace_char_vec(&cv("pt_BR_x"), '_', '-'), cv("pt-BR-x"));
}
