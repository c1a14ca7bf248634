use audit_watchdog::text::{join, split_commas};

fn strings(parts: &[&str]) -> Vec<String> {
    parts.iter().map(|part| part.to_string()).collect()
}

#[test]
fn split_keeps_every_part() {
    assert_eq!(split_commas("a,b,c"), strings(&["a", "b", "c"]));
    assert_eq!(split_commas(""), strings(&[""]));
    assert_eq!(split_commas(","), strings(&["", ""]));
    assert_eq!(split_commas("a,,b "), strings(&["a", "", "b "]));
    assert_eq!(split_commas("\u{e9},\u{20ac}"), strings(&["\u{e9}", "\u{20ac}"]));
}

#[test]
fn join_puts_the_separator_between_neighbours() {
    assert_eq!(join(&strings(&[]), ", "), "");
    assert_eq!(join(&strings(&["a"]), ", "), "a");
    assert_eq!(join(&strings(&["a", "", "b"]), ", "), "a, , b");
}

#[test]
fn lists_are_joined_one_by_one() {
    let first = strings(&["a", "b"]);
    let second = strings(&["", "c"]);
    let both = strings(&["a", "b", "", "c"]);
    assert_eq!(join(&both, ", "), format!("{}, {}", join(&first, ", "), join(&second, ", ")));
}

#[test]
fn split_parts_join_to_the_text() {
    for text in ["", ",", "10.0.0.0/8, fd00::/8", "a,b,,c,"] {
        assert_eq!(join(&split_commas(text), ","), text);
        assert!(split_commas(text).iter().all(|part| !part.contains(',')));
    }
}
