use drugwars::renderer::{BoxContent, Part, RenderBox, RenderBoxContent, Renderer};
use drugwars::text::{wrap_names, PrettyAmount, PrettyMoney, StringManips};

#[test]
fn money_is_grouped_with_two_fraction_digits() {
    assert_eq!(1234567891234u128.pretty_money(), "$123,456,789.12");
    assert_eq!(1_000_000_000_000u128.pretty_money(), "$100,000,000.00");
    assert_eq!(0u128.pretty_money(), "$0.00");
    assert_eq!(5u128.pretty_money(), "$0.00");
    assert_eq!(500u128.pretty_money(), "$0.05");
    assert_eq!(10000u128.pretty_money(), "$1.00");
}

#[test]
fn money_fraction_shows_whole_hundredths() {
    assert_eq!(10500u128.pretty_money(), "$1.05");
    assert_eq!(50u128.pretty_money(), "$0.00");
    assert_eq!(15000u128.pretty_money(), "$1.50");
    assert_eq!(19999u128.pretty_money(), "$1.99");
}

#[test]
fn amounts_are_grouped_by_thousands() {
    assert_eq!(0usize.pretty_amount(), "0");
    assert_eq!(999usize.pretty_amount(), "999");
    assert_eq!(1000usize.pretty_amount(), "1,000");
    assert_eq!(1234567usize.pretty_amount(), "1,234,567");
    assert_eq!(999999usize.pretty_amount(), "999,999");
}

#[test]
fn irc_length_skips_formatting_codes() {
    assert_eq!("plain".to_owned().irc_safe_len(), 5);
    assert_eq!("\x0304red\x0f".to_owned().irc_safe_len(), 3);
    assert_eq!("\x02bold\x02 \x1dit\x1d".to_owned().irc_safe_len(), 7);
    assert_eq!("\x0315x\x0316".to_owned().irc_safe_len(), 4);
    assert_eq!("╭─╮".to_owned().irc_safe_len(), 3);
}

#[test]
fn truncation_keeps_short_text() {
    assert_eq!("abcdef".to_owned().pretty_truncate(6), "abcdef");
    assert_eq!("\x0304abcdef\x0f".to_owned().pretty_truncate(6), "\x0304abcdef\x0f");
}

#[test]
fn truncation_cuts_long_text() {
    assert_eq!("abcdefghij".to_owned().pretty_truncate(6), "abc...");
    assert_eq!("abcdefg".to_owned().pretty_truncate(6), "abc...");
}

fn cells<const N: usize>(v: [&str; N]) -> [String; N] {
    v.map(|s| s.to_owned())
}

#[test]
fn table_lines_pad_cells_and_lines() {
    let mut t = RenderBoxContent::<2>::new();
    t.header(cells(["ab", "cd"])).sizes([5, 5]).add_row(cells(["x", "y"]));
    let t = t.get();
    assert_eq!(t.len(), 2);
    assert_eq!(
        t.get_lines(12),
        vec!["ab   cd     ".to_owned(), "x    y      ".to_owned()]
    );
}

#[test]
fn table_columns_share_the_width_without_sizes() {
    let mut t = RenderBoxContent::<2>::new();
    t.add_row(cells(["abcdefghij", "k"]));
    assert_eq!(t.len(), 1);
    assert_eq!(t.get_lines(16), vec!["abcde...k       ".to_owned()]);
}

#[test]
fn box_frames_a_titled_column() {
    let mut t = RenderBoxContent::<1>::new();
    t.add_row(cells(["hello"]));
    let t = t.get();
    let mut b = RenderBox::<1>::new();
    b.headers(cells(["T"])).add_content([&t]);
    let b = b.get();
    let lines = b.get_lines(20);
    assert_eq!(
        lines,
        vec![
            format!("╭ T  {}╮", "─".repeat(14)),
            format!("│ hello{}│", " ".repeat(12)),
            format!("╰{}╯", "─".repeat(18)),
        ]
    );
}

#[test]
fn box_without_titles_has_a_plain_border() {
    let t = RenderBoxContent::<1>::new();
    let mut b = RenderBox::<1>::new();
    b.add_content([&t]);
    let lines = b.get_lines(20);
    assert_eq!(
        lines,
        vec![format!("╭{}╮", "─".repeat(18)), format!("╰{}╯", "─".repeat(18))]
    );
}

#[test]
fn renderer_stacks_boxes() {
    let t = RenderBoxContent::<1>::new();
    let mut b = RenderBox::<1>::new();
    b.add_content([&t]);
    let b = b.get();
    let mut r = Renderer::new(20);
    r.add_box(&b).add_box(&b);
    let lines = r.build();
    assert_eq!(lines.len(), 4);
    assert_eq!(lines[0], lines[2]);
    assert_eq!(lines[1], format!("╰{}╯", "─".repeat(18)));
}

fn names(v: &[&str]) -> Vec<String> {
    v.iter().map(|s| s.to_string()).collect()
}

#[test]
fn names_wrap_last_first_into_rows() {
    assert_eq!(wrap_names(&names(&["a", "bb", "ccc"]), 8), names(&["ccc", "bb", "a"]));
    assert_eq!(wrap_names(&names(&["a", "bb", "ccc"]), 12), names(&["ccc, bb", "a"]));
    assert_eq!(wrap_names(&names(&["a", "bb", "ccc"]), 40), names(&["ccc, bb, a"]));
}

#[test]
fn no_names_no_rows() {
    assert!(wrap_names(&vec![], 20).is_empty());
}

#[test]
fn colored_names_wrap_by_visible_width() {
    let v = names(&["\x0304red\x0f", "\x0304red\x0f"]);
    assert_eq!(wrap_names(&v, 12), names(&["\x0304red\x0f, \x0304red\x0f"]));
}
