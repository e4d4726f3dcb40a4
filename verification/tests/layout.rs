use squiggle::ast::Expr;
use squiggle::glyph::{classify, Cell};
use squiggle::layout::{delimit, sprinkle_blocks};
use squiggle::parser::parse_program;

fn count(text: &str, c: char) -> usize {
    text.chars().filter(|&x| x == c).count()
}

#[test]
fn empty_text_stays_empty() {
    assert_eq!(sprinkle_blocks(""), "");
}

#[test]
fn a_single_line_is_written_as_it_is() {
    assert_eq!(sprinkle_blocks("abc"), "abc");
    assert_eq!(sprinkle_blocks("a"), "a");
    assert_eq!(sprinkle_blocks("a\n"), "a");
    assert_eq!(sprinkle_blocks("    a"), "    a");
    assert_eq!(sprinkle_blocks("\n"), "");
}

#[test]
fn the_last_line_gets_no_line_feed() {
    assert_eq!(sprinkle_blocks("a\nb"), "a\nb");
    assert_eq!(sprinkle_blocks("a\nb\n"), "a\nb");
    assert_eq!(sprinkle_blocks("a\nb\n\n"), "a\nb\n");
}

#[test]
fn a_rise_of_one_level_opens_a_block() {
    assert_eq!(sprinkle_blocks("a\n  b"), "a {\n  b  }");
    assert_eq!(sprinkle_blocks("a\n   b"), "a {\n   b  }");
    assert_eq!(sprinkle_blocks("a\n\t\tb"), "a {\n\t\tb  }");
}

#[test]
fn a_fall_of_one_level_closes_a_block() {
    assert_eq!(sprinkle_blocks("a\n  b\nc"), "a {\n  b\n}\nc");
    assert_eq!(
        sprinkle_blocks("a\n  b\n    c\n  d\ne\n"),
        "a {\n  b {\n    c\n  }\n  d\n}\ne"
    );
}

#[test]
fn blocks_open_at_the_end_are_closed_innermost_first() {
    assert_eq!(sprinkle_blocks("a\n  b\n    c"), "a {\n  b {\n    c    }  }");
    assert_eq!(
        sprinkle_blocks("a\n  b\n    c\n      d"),
        "a {\n  b {\n    c {\n      d      }    }  }"
    );
}

#[test]
fn a_jump_of_two_levels_writes_no_delimiter() {
    assert_eq!(sprinkle_blocks("a\n    b\nc"), "a\n    b\nc");
    assert_eq!(sprinkle_blocks("a\n    b"), "a\n    b    }  }");
    assert_eq!(sprinkle_blocks("a\n  b\n      c\n  d"), "a {\n  b\n      c\n  d  }");
}

#[test]
fn the_first_line_counts_as_level_zero() {
    assert_eq!(sprinkle_blocks("  a\n  b"), "  a {\n  b  }");
    assert_eq!(sprinkle_blocks("    a\nb"), "    a\nb");
}

#[test]
fn one_leading_space_is_level_zero() {
    assert_eq!(sprinkle_blocks("a\n b\nc"), "a\n b\nc");
}

#[test]
fn a_line_of_white_space_has_the_level_of_its_length() {
    assert_eq!(sprinkle_blocks("a\n  \nb"), "a {\n  \n}\nb");
    assert_eq!(sprinkle_blocks("a\n\nb"), "a\n\nb");
    assert_eq!(sprinkle_blocks("a\n  b\n\n  c"), "a {\n  b\n}\n {\n  c  }");
}

#[test]
fn white_space_is_counted_in_characters() {
    assert_eq!(sprinkle_blocks("a\n\u{a0}\u{3000}b"), "a {\n\u{a0}\u{3000}b  }");
    assert_eq!(sprinkle_blocks("a\n\u{3000}b"), "a\n\u{3000}b");
}

#[test]
fn line_ends_may_carry_a_carriage_return() {
    assert_eq!(sprinkle_blocks("a\r\n  b\r\nc\r\n"), "a {\n  b\n}\nc");
    assert_eq!(sprinkle_blocks("a\r\r\nb"), "a\r\nb");
    assert_eq!(sprinkle_blocks("a\rb\r"), "a\rb\r");
    assert_eq!(sprinkle_blocks("\r\n"), "");
}

#[test]
fn delimiters_are_counted_by_the_changes_of_level() {
    let text = "a {\n  b }\n    c\n  d\n      e\nf\n  g\n    h";
    let out = sprinkle_blocks(text);
    assert_eq!(out, "a { {\n  b } {\n    c\n  }\n  d\n      e\nf {\n  g {\n    h    }  }");
    assert_eq!(count(&out, '{'), count(text, '{') + 4);
    assert_eq!(count(&out, '}'), count(text, '}') + 1 + 2);
}

#[test]
fn flat_text_is_stable() {
    for text in ["", "\n", "a", "a\r", "a\nb\nc", "  a\n b\n\nc\n", "x = 1\ny = { 2 }\n"] {
        let once = sprinkle_blocks(text);
        assert_eq!(sprinkle_blocks(&once), once);
    }
}

#[test]
fn text_that_is_not_flat_is_not_stable() {
    let once = sprinkle_blocks("a\n  b");
    assert_eq!(once, "a {\n  b  }");
    assert_eq!(sprinkle_blocks(&once), "a { {\n  b  }  }");
    let once = sprinkle_blocks("a\r\r\nb");
    assert_eq!(once, "a\r\nb");
    assert_eq!(sprinkle_blocks(&once), "a\nb");
    let once = sprinkle_blocks("a\n\n");
    assert_eq!(once, "a\n");
    assert_eq!(sprinkle_blocks(&once), "a");
}

#[test]
fn delimiting_goes_by_the_flags_of_the_cells() {
    let cells = classify("a\n  b");
    assert_eq!(delimit(&cells), "a {\n  b  }");
    let cells: Vec<Cell> = "a\n..b"
        .chars()
        .map(|ch| Cell { ch, blank: ch == '.', alnum: false })
        .collect();
    assert_eq!(delimit(&cells), "a {\n..b  }");
    let cells: Vec<Cell> = "a\n  b"
        .chars()
        .map(|ch| Cell { ch, blank: false, alnum: false })
        .collect();
    assert_eq!(delimit(&cells), "a\n  b");
}

#[test]
fn delimited_text_parses() {
    let out = sprinkle_blocks("a = 1\nb\n  c\n  d = 2\ne");
    assert_eq!(out, "a = 1\nb {\n  c\n  d = 2\n}\ne");
    let name = |n: &str| Expr::Ident(n.to_string());
    let num = |d: &str| Expr::Num(d.to_string());
    let expected = vec![
        Expr::Assign { name: "a".to_string(), value: Box::new(num("1")) },
        name("b"),
        Expr::Block(vec![
            name("c"),
            Expr::Assign { name: "d".to_string(), value: Box::new(num("2")) },
        ]),
        name("e"),
    ];
    assert_eq!(parse_program(&out), Ok(expected));
}

#[test]
fn blocks_closed_at_the_end_parse() {
    let out = sprinkle_blocks("x = 1\ny\n  z\n    7");
    assert_eq!(out, "x = 1\ny {\n  z {\n    7    }  }");
    let expected = vec![
        Expr::Assign { name: "x".to_string(), value: Box::new(Expr::Num("1".to_string())) },
        Expr::Ident("y".to_string()),
        Expr::Block(vec![
            Expr::Ident("z".to_string()),
            Expr::Block(vec![Expr::Num("7".to_string())]),
        ]),
    ];
    assert_eq!(parse_program(&out), Ok(expected));
}
