use std::collections::HashMap;
use waitforgraph::get_or_default;
use waitforgraph::get_or_default_ex;
use waitforgraph::subgraph::add_graph;
use waitforgraph::subgraph::parse_edge;
use waitforgraph::subgraph::LineError;
use waitforgraph::text::chars_of;
use waitforgraph::text::find_sub;
use waitforgraph::text::is_space_char;
use waitforgraph::text::parse_i64;
use waitforgraph::text::parse_u16;
use waitforgraph::text::push_decimal;
use waitforgraph::text::push_i64;
use waitforgraph::text::push_item;
use waitforgraph::text::slice;
use waitforgraph::text::str_eq;
use waitforgraph::text::text_of;
use waitforgraph::text::trim;

fn chars(s: &str) -> Vec<char> {
    s.chars().collect()
}

const NUMBERS: [&str; 34] = [
    "",
    "0",
    "-0",
    "+0",
    "7",
    "42",
    "-42",
    "+42",
    "00012",
    "-00012",
    "+",
    "-",
    "+-1",
    "--1",
    "1-",
    " 1",
    "1 ",
    "1_000",
    "0x10",
    "12a",
    "a12",
    "65535",
    "65536",
    "+65535",
    "-1",
    "9223372036854775807",
    "9223372036854775808",
    "-9223372036854775808",
    "-9223372036854775809",
    "18446744073709551616",
    "99999999999999999999999999",
    "-99999999999999999999999999",
    "１２",
    "1.0",
];

#[test]
fn numbers_are_read_as_std_reads_them() {
    for text in NUMBERS.iter() {
        assert_eq!(parse_i64(&chars(text)), text.parse::<i64>().ok(), "{:?}", text);
        assert_eq!(parse_u16(&chars(text)), text.parse::<u16>().ok(), "{:?}", text);
    }
}

#[test]
fn the_ends_of_the_range() {
    assert_eq!(parse_i64(&chars("9223372036854775807")), Some(i64::MAX));
    assert_eq!(parse_i64(&chars("-9223372036854775808")), Some(i64::MIN));
    assert_eq!(parse_i64(&chars("9223372036854775808")), None);
    assert_eq!(parse_u16(&chars("65535")), Some(65535));
    assert_eq!(parse_u16(&chars("65536")), None);
    assert_eq!(parse_u16(&chars("-0")), None);
}

#[test]
fn numbers_are_written_in_decimal() {
    for v in [0i64, 1, 9, 10, 11, 99, 100, 12345, -1, -10, -987, i64::MAX, i64::MIN, i64::MIN + 1] {
        let mut out = String::from("x");
        push_i64(&mut out, v);
        assert_eq!(out, format!("x{}", v));
    }
    let mut out = String::new();
    push_decimal(&mut out, u64::MAX);
    assert_eq!(out, "18446744073709551615");
    let mut out = String::new();
    push_decimal(&mut out, 0);
    assert_eq!(out, "0");
}

#[test]
fn white_space_is_what_std_calls_white_space() {
    for code in 0..=0x10FFFFu32 {
        if let Some(c) = char::from_u32(code) {
            assert_eq!(is_space_char(c), c.is_whitespace(), "{:x}", code);
        }
    }
}

#[test]
fn trimming_is_std_trimming() {
    for text in ["", " ", "a", " a", "a ", "  a b  ", "\t\n a\u{3000}", "\u{a0}x\u{2003}y\u{85}", "   "]
    {
        assert_eq!(text_of(&trim(&chars(text))), text.trim(), "{:?}", text);
    }
}

#[test]
fn finding_is_std_finding() {
    let cases = [
        ("", ""),
        ("abc", ""),
        ("", "a"),
        ("1 -> 2", "->"),
        ("1 - > 2", "->"),
        ("->", "->"),
        ("-->", "->"),
        ("a->b->c", "->"),
        ("ab", "abc"),
        ("aab", "ab"),
        ("大吉->大利", "->"),
    ];
    for (hay, needle) in cases.iter() {
        let want = hay.find(needle).map(|at| hay[..at].chars().count());
        assert_eq!(find_sub(&chars(hay), &chars(needle)), want, "{:?} {:?}", hay, needle);
    }
}

#[test]
fn strings_and_characters() {
    assert_eq!(chars_of("a大b"), vec!['a', '大', 'b']);
    assert_eq!(text_of(&vec!['a', '大', 'b']), "a大b");
    assert_eq!(slice(&chars("hello"), 1, 3), vec!['e', 'l']);
    assert_eq!(slice(&chars("hello"), 2, 2), Vec::<char>::new());
    assert!(str_eq("abc", "abc"));
    assert!(!str_eq("abc", "abd"));
    assert!(!str_eq("abc", "ab"));
    assert!(str_eq("", ""));
}

#[test]
fn items_are_joined() {
    let mut out = String::new();
    push_item(&mut out, false, ",", "a");
    assert_eq!(out, "a");
    push_item(&mut out, true, ",", "b");
    push_item(&mut out, true, ", ", "");
    assert_eq!(out, "a,b, ");
}

#[test]
fn lines_that_write_an_arc() {
    assert_eq!(parse_edge("1 -> 2"), Ok((1, 2)));
    assert_eq!(parse_edge("1->2"), Ok((1, 2)));
    assert_eq!(parse_edge("  10\t->\t-20  "), Ok((10, -20)));
    assert_eq!(parse_edge("+5 -> 5"), Ok((5, 5)));
    assert_eq!(
        parse_edge("9223372036854775807->-9223372036854775808"),
        Ok((i64::MAX, i64::MIN))
    );
}

#[test]
fn lines_that_write_no_arc() {
    assert_eq!(parse_edge(""), Err(LineError::Arity));
    assert_eq!(parse_edge("1 2"), Err(LineError::Arity));
    assert_eq!(parse_edge("1 - > 2"), Err(LineError::Arity));
    assert_eq!(parse_edge("1 -> 2 -> 3"), Err(LineError::Arity));
    assert_eq!(parse_edge("a -> b -> c"), Err(LineError::Arity));
    assert_eq!(parse_edge("1 -> 2 ->"), Err(LineError::Arity));
    assert_eq!(parse_edge("->"), Err(LineError::Session));
    assert_eq!(parse_edge("1 ->"), Err(LineError::Session));
    assert_eq!(parse_edge("-> 2"), Err(LineError::Session));
    assert_eq!(parse_edge("a -> 2"), Err(LineError::Session));
    assert_eq!(parse_edge("1 -> b"), Err(LineError::Session));
    assert_eq!(parse_edge("1 --> 2"), Err(LineError::Session));
    assert_eq!(parse_edge("1 ->> 2"), Err(LineError::Session));
    assert_eq!(parse_edge("1 -> 9223372036854775808"), Err(LineError::Session));
    assert_eq!(parse_edge("1 -> 2;"), Err(LineError::Session));
}

#[test]
fn arcs_are_added_in_the_order_of_the_lines() {
    let mut graph: HashMap<i64, Vec<i64>> = HashMap::new();
    assert_eq!(add_graph(&mut graph, "1 -> 2"), Ok(()));
    assert_eq!(add_graph(&mut graph, "1 -> 3"), Ok(()));
    assert_eq!(add_graph(&mut graph, "nonsense"), Err(LineError::Arity));
    assert_eq!(add_graph(&mut graph, "2 -> x"), Err(LineError::Session));
    assert_eq!(add_graph(&mut graph, "4 -> 1"), Ok(()));
    assert_eq!(add_graph(&mut graph, "1 -> 2"), Ok(()));
    let mut want = HashMap::new();
    want.insert(1, vec![2, 3, 2]);
    want.insert(4, vec![1]);
    assert_eq!(graph, want);
}

#[test]
fn the_slot_of_a_key() {
    let mut map: HashMap<i64, Vec<u8>> = HashMap::new();
    get_or_default(&mut map, 5).push(1);
    get_or_default(&mut map, 5).push(2);
    get_or_default(&mut map, 6);
    assert_eq!(map[&5], vec![1, 2]);
    assert_eq!(map[&6], Vec::<u8>::new());
    assert_eq!(*get_or_default_ex(&mut map, 5, vec![9]), vec![1, 2]);
    assert_eq!(*get_or_default_ex(&mut map, 7, vec![9]), vec![9]);
    assert_eq!(map.len(), 3);
}
