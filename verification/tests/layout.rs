use vsplit::layout::{vsplit, vsplit_checked};
use vsplit::wrap::{wrap_at, WrappedLine};
use vsplit::Pane;

#[allow(non_snake_case)]
fn S(s: &str) -> String {
    s.into()
}

#[test]
fn wrap() {
    assert_eq!(
        wrap_at("abcdefghijklmnopqrstuvwxyz", 5),
        WrappedLine {
            subs: vec![
                S("abcde"),
                S("fghij"),
                S("klmno"),
                S("pqrst"),
                S("uvwxy"),
                S("z")
            ],
            width: 5
        }
    );

    assert_eq!(
        wrap_at("あいうえおかきくけこ", 5),
        WrappedLine {
            subs: vec![S("あい"), S("うえ"), S("おか"), S("きく"), S("けこ")],
            width: 5
        }
    );
}

#[test]
fn display() {
    let lines = Pane {
        lines: vec![S("1"), S("2"), S("3"), S("4")],
        width: 3,
    };
    let pane1 = Pane { lines: vec![S("Lorem ipsum dolor sit amet, consectetur adipiscing elit,"), S("sed do eiusmod tempor incididunt ut labore et dolore magna aliqua. Ut enim ad minim veniam, quis nostrud exercitation ullamco laboris nisi ut aliquip ex ea commodo consequat."), S("Duis aute irure dolor in reprehenderit in voluptate velit esse cillum dolore eu fugiat nulla pariatur."), S("Excepteur sint occaecat cupidatat non proident, sunt in culpa qui officia deserunt mollit anim id est laborum.")], width: 30};
    let pane2 = Pane { lines: vec![S("Lorem ipsum dolor sit amet, consectetur adipiscing elit,"), S("sed do eiusmod tempor incididunt ut labore et dolore magna aliqua. Ut enim ad minim veniam, quis nostrud exercitation ullamco laboris nisi ut aliquip ex ea commodo consequat."), S("Duis aute irure dolor in reprehenderit in voluptate velit esse cillum dolore eu fugiat nulla pariatur."), S("とりあえずここに自然に日本語がまぎれてきてもたぶんいい感じに切ってくれるはずだよね")], width: 40};

    println!(
        "{}",
        vsplit(vec![lines, pane1, pane2], vec![S(" | "), S(" | ")]).join("\n")
    );
}

#[test]
fn wrap_empty_line_has_no_sub_lines() {
    let wl = wrap_at("", 5);
    assert_eq!(wl.subs, Vec::<String>::new());
    assert_eq!(wl.width, 5);
}

#[test]
fn wrap_zero_width_characters_stay_together() {
    // A combining acute accent occupies no columns, so "a" plus two accents
    // still fits a width-one sub-line.
    let wl = wrap_at("a\u{0301}\u{0301}b", 1);
    assert_eq!(wl.subs, vec![S("a\u{0301}\u{0301}"), S("b")]);
}

#[test]
fn wrap_over_wide_character_gets_its_own_sub_line() {
    // A double-width character under target width one closes the (empty)
    // buffer and then stands alone, wider than the target.
    let wl = wrap_at("あ", 1);
    assert_eq!(wl.subs, vec![S(""), S("あ")]);
    let wl = wrap_at("aあb", 1);
    assert_eq!(wl.subs, vec![S("a"), S("あ"), S("b")]);
}

#[test]
fn wrap_reconstructs_original() {
    let original = "abcdefghijklmnopqrstuvwxyzあいうえお";
    for w in 1..8usize {
        let wl = wrap_at(original, w);
        assert_eq!(wl.subs.concat(), original);
    }
}

#[test]
fn two_panes_pad_and_join() {
    let left = Pane {
        lines: vec![S("ab")],
        width: 3,
    };
    let right = Pane {
        lines: vec![S("cdefg"), S("h")],
        width: 5,
    };
    let out = vsplit(vec![left, right], vec![S("|")]);
    assert_eq!(out, vec![S("ab |cdefg"), S("   |h    ")]);
}

#[test]
fn row_count_matches_tallest_pane() {
    // The wider line wraps inside its row group, so one row group still
    // yields two physical lines; every line spans both panes.
    let left = Pane {
        lines: vec![S("abcd")],
        width: 2,
    };
    let right = Pane {
        lines: vec![S("x")],
        width: 1,
    };
    let out = vsplit(vec![left, right], vec![S("|")]);
    assert_eq!(out, vec![S("ab|x"), S("cd| ")]);
}

#[test]
fn shorter_pane_contributes_blank_rows() {
    let tall = Pane {
        lines: vec![S("a"), S("b"), S("c")],
        width: 1,
    };
    let short = Pane {
        lines: vec![S("z")],
        width: 2,
    };
    let out = vsplit(vec![tall, short], vec![S("|")]);
    assert_eq!(out, vec![S("a|z "), S("b|  "), S("c|  ")]);
}

#[test]
fn output_lines_span_all_pane_and_delimiter_widths() {
    let p1 = Pane {
        lines: vec![S("one"), S("two two")],
        width: 4,
    };
    let p2 = Pane {
        lines: vec![S("three")],
        width: 3,
    };
    let out = vsplit(vec![p1, p2], vec![S(" | ")]);
    // Every ASCII output line is 4 + 3 + 3 = 10 columns wide.
    for line in &out {
        assert_eq!(line.chars().count(), 10);
    }
}

#[test]
fn wide_characters_count_two_columns_when_merging() {
    let left = Pane {
        lines: vec![S("あ")],
        width: 4,
    };
    let right = Pane {
        lines: vec![S("b")],
        width: 1,
    };
    let out = vsplit(vec![left, right], vec![S("|")]);
    // The double-width character leaves only two columns of padding.
    assert_eq!(out, vec![S("あ  |b")]);
}

#[test]
fn checked_accepts_matching_delimiter_count() {
    let p1 = Pane {
        lines: vec![S("a")],
        width: 1,
    };
    let p2 = Pane {
        lines: vec![S("b")],
        width: 1,
    };
    let out = vsplit_checked(vec![p1, p2], vec![S("-")]);
    assert_eq!(out, Some(vec![S("a-b")]));
}

#[test]
fn checked_rejects_missing_delimiter() {
    // Three panes but only one delimiter: no output at all.
    let p1 = Pane {
        lines: vec![S("a")],
        width: 1,
    };
    let p2 = Pane {
        lines: vec![S("b")],
        width: 1,
    };
    let p3 = Pane {
        lines: vec![S("c")],
        width: 1,
    };
    assert_eq!(vsplit_checked(vec![p1, p2, p3], vec![S("|")]), None);
}

#[test]
fn checked_rejects_zero_panes() {
    assert_eq!(vsplit_checked(vec![], vec![]), None);
}
