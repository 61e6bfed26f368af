use spoken_commands::dictation_commands::{expand, expand_commands, strip_marks};
use spoken_commands::kind::{classify, classify_lowered, quote_kind, Kind};
use spoken_commands::order::{active_order, phrase_weight};
use spoken_commands::pattern::{command_marker, mark_phrase, phrase_regex, MARK_END, MARK_START};
use spoken_commands::render::{parse, render, Seg, Sheet};
use spoken_commands::settings::{AppSettings, SpokenCommand};
use spoken_commands::text;

fn command(phrase: &str, replacement: &str) -> SpokenCommand {
    SpokenCommand {
        phrase: phrase.to_string(),
        replacement: replacement.to_string(),
        enabled: true,
    }
}

fn default_spoken_commands() -> Vec<SpokenCommand> {
    let pairs = [
        ("new line", "\n"),
        ("new paragraph", "\n\n"),
        ("period", "."),
        ("full stop", "."),
        ("question mark", "?"),
        ("exclamation mark", "!"),
        ("ellipsis", "…"),
        ("comma", ","),
        ("semicolon", ";"),
        ("colon", ":"),
        ("open paren", "("),
        ("open parenthesis", "("),
        ("close paren", ")"),
        ("close parenthesis", ")"),
        ("open bracket", "["),
        ("close bracket", "]"),
        ("open quote", "\""),
        ("close quote", "\""),
        ("hyphen", "-"),
        ("em dash", "—"),
        ("slash", "/"),
        ("ampersand", "&"),
        ("at sign", "@"),
        ("dollar sign", "$"),
        ("percent sign", "%"),
        ("hash sign", "#"),
        ("asterisk", "*"),
        ("tab key", "\t"),
    ];
    pairs.iter().map(|(phrase, replacement)| command(phrase, replacement)).collect()
}

fn expand_default(text: &str) -> String {
    expand_commands(text, true, &default_spoken_commands())
}

#[test]
fn formats_an_email() {
    let input = "dear John comma new paragraph thanks for your email period \
                 new line best regards comma new line Norm";
    assert_eq!(
        expand_default(input),
        "Dear John,\n\nThanks for your email.\nBest regards,\nNorm"
    );
}

#[test]
fn period_attaches_and_capitalizes() {
    assert_eq!(expand_default("hello period world"), "Hello. World");
}

#[test]
fn comma_attaches_without_capitalizing() {
    assert_eq!(expand_default("apples comma oranges"), "Apples, oranges");
}

#[test]
fn question_mark_capitalizes_next() {
    assert_eq!(expand_default("really question mark yes"), "Really? Yes");
}

#[test]
fn word_boundary_does_not_match_inside_words() {
    assert_eq!(expand_default("the periodic comment"), "The periodic comment");
}

#[test]
fn longest_phrase_wins() {
    assert_eq!(expand_default("a new paragraph b"), "A\n\nB");
    assert_eq!(expand_default("a new line b"), "A\nB");
}

#[test]
fn parentheses_wrap_tightly() {
    assert_eq!(
        expand_default("the value open paren approx close paren works"),
        "The value (approx) works"
    );
}

#[test]
fn hyphen_glues_both_sides() {
    assert_eq!(
        expand_default("state hyphen of hyphen the hyphen art"),
        "State-of-the-art"
    );
}

#[test]
fn disabled_feature_is_passthrough() {
    assert_eq!(
        expand_commands("hello period", false, &default_spoken_commands()),
        "hello period"
    );
}

#[test]
fn disabled_command_is_skipped() {
    let mut cmds = default_spoken_commands();
    for c in cmds.iter_mut() {
        if c.phrase == "period" {
            c.enabled = false;
        }
    }
    assert_eq!(expand_commands("hello period there", true, &cmds), "Hello period there");
}

#[test]
fn does_not_touch_model_punctuation() {
    assert_eq!(expand_default("it was 3.5 on Dr. Smith"), "It was 3.5 on Dr. Smith");
}

#[test]
fn dollar_sign_replacement_is_literal() {
    assert_eq!(expand_default("pay dollar sign now"), "Pay $ now");
}

#[test]
fn module_example() {
    assert_eq!(
        expand_default("dear john comma new paragraph thanks period"),
        "Dear john,\n\nThanks."
    );
    assert_eq!(expand_default("store period next"), "Store. Next");
}

#[test]
fn expand_reads_the_settings() {
    let mut settings = AppSettings {
        spoken_commands_enabled: true,
        spoken_commands: default_spoken_commands(),
    };
    assert_eq!(expand("hi comma you", &settings), "Hi, you");
    settings.spoken_commands_enabled = false;
    assert_eq!(expand(" hi comma  you ", &settings), " hi comma  you ");
}

#[test]
fn tags_read_back() {
    let kinds = [
        (Kind::SentenceEnd, '0'),
        (Kind::Clause, '1'),
        (Kind::Open, '2'),
        (Kind::Close, '3'),
        (Kind::Tight, '4'),
        (Kind::Break, '5'),
        (Kind::Token, '6'),
    ];
    for (kind, tag) in kinds {
        assert_eq!(kind.tag(), tag);
        assert_eq!(Kind::from_tag(tag), kind);
    }
    assert_eq!(Kind::from_tag('7'), Kind::Token);
    assert_eq!(Kind::from_tag('x'), Kind::Token);
}

#[test]
fn replacements_are_classified() {
    for r in [".", "?", "!", "…"] {
        assert_eq!(classify(&command("x", r)), Kind::SentenceEnd);
    }
    for r in [",", ";", ":"] {
        assert_eq!(classify(&command("x", r)), Kind::Clause);
    }
    for r in ["-", "—", "/"] {
        assert_eq!(classify(&command("x", r)), Kind::Tight);
    }
    for r in ["(", "[", "{"] {
        assert_eq!(classify(&command("x", r)), Kind::Open);
    }
    for r in [")", "]", "}"] {
        assert_eq!(classify(&command("x", r)), Kind::Close);
    }
    for r in ["\n", "\n\n", "x\ny"] {
        assert_eq!(classify(&command("x", r)), Kind::Break);
    }
    for r in ["&", "@", "$", "\t", "..", "word", ""] {
        assert_eq!(classify(&command("x", r)), Kind::Token);
    }
    assert_eq!(classify_lowered(".", "close"), Kind::SentenceEnd);
}

#[test]
fn quotes_are_told_apart_by_their_phrase() {
    assert_eq!(classify(&command("CLOSE Quote", "\"")), Kind::Close);
    assert_eq!(classify(&command("Open Quote", "'")), Kind::Open);
    assert_eq!(classify(&command("open and close", "'")), Kind::Close);
    assert_eq!(classify(&command("quote", "\"")), Kind::Token);
    assert_eq!(quote_kind("disclose"), Kind::Close);
    assert_eq!(quote_kind("CLOSE"), Kind::Token);
    assert_eq!(
        expand_default("say open quote hi close quote now"),
        "Say \"hi\" now"
    );
}

#[test]
fn phrases_become_whole_word_patterns() {
    assert_eq!(phrase_regex("period").unwrap(), r"\bperiod\b");
    assert_eq!(phrase_regex("  new \t paragraph ").unwrap(), r"\bnew\s+paragraph\b");
    assert_eq!(phrase_regex("c++ (x)").unwrap(), r"\bc\+\+\s+\(x\)\b");
    assert_eq!(phrase_regex("a-b #1 ~&").unwrap(), r"\ba\-b\s+\#1\s+\~\&\b");
    assert!(phrase_regex(" \t\n").is_none());
    assert!(phrase_regex("").is_none());
}

#[test]
fn markers_hold_the_replacement_as_it_is() {
    assert_eq!(command_marker(&command("dollar sign", "$1")), "\u{E000}6$1\u{E001}");
    assert_eq!(command_marker(&command("period", ".")), "\u{E000}0.\u{E001}");
}

#[test]
fn phrases_are_marked_as_whole_words_in_any_case() {
    let cmd = command("new line", "\n");
    assert_eq!(
        mark_phrase("a New \n LINE, newline new lines new line", &cmd),
        "a \u{E000}5\n\u{E001}, newline new lines \u{E000}5\n\u{E001}"
    );
    let kelvin = command("kilo", "k");
    assert_eq!(mark_phrase("\u{212A}ILO ékilo kilo", &kelvin), "\u{E000}6k\u{E001} ékilo \u{E000}6k\u{E001}");
}

#[test]
fn a_word_ends_beside_a_mark() {
    let cmd = command("period", ".");
    assert_eq!(
        mark_phrase("\u{E001}period\u{E000}", &cmd),
        "\u{E001}\u{E000}0.\u{E001}\u{E000}"
    );
    assert_eq!(mark_phrase("periodic _period period1", &cmd), "periodic _period period1");
}

#[test]
fn ascii_letters_are_said_with_few_others() {
    let mut all = String::new();
    for c in '\u{80}'..=char::MAX {
        all.push(c);
        all.push(' ');
    }
    for (phrase, sign) in [("k", Some('\u{212A}')), ("s", Some('\u{17F}')), ("i", None)] {
        let expected = match sign {
            Some(sign) => all.replace(sign, "\u{E000}6+\u{E001}"),
            None => all.clone(),
        };
        assert_eq!(mark_phrase(&all, &command(phrase, "+")), expected);
    }
}

#[test]
fn capitalizing_twice_is_capitalizing_once() {
    for c in '\0'..=char::MAX {
        let once = text::capitalize_first(&c.to_string());
        assert_eq!(text::capitalize_first(&once), once);
        let special = |x: char| x.is_whitespace() || ('\u{E000}'..='\u{F8FF}').contains(&x);
        assert!(!once.chars().any(special) || once == c.to_string());
    }
    assert_eq!(text::capitalize_first("ß and so on"), "SS and so on");
    assert_eq!(text::capitalize_first("12 ŉ"), "12 \u{2BC}N");
}

#[test]
fn no_mark_is_left() {
    let input = "a\u{E000} comma\u{E001}period \u{E000}0new line\u{E001}b open paren c";
    let plain = "a commaperiod 0new lineb open paren c";
    assert_eq!(expand_default(input), expand_default(plain));
    for text in [input, "comma comma period", "period\u{E000}comma", "\u{E001} full \u{E000} stop"] {
        let r = expand_default(text);
        assert!(!r.contains(MARK_START) && !r.contains(MARK_END));
    }
    let letters = vec![command("say it", "(comma)"), command("comma", ",")];
    let broken = expand_commands("say it", true, &letters);
    assert!(broken.contains(MARK_END));
}

#[test]
fn white_space_beside_a_command_does_not_matter() {
    for marker in ["\u{E000}0.\u{E001}", "\u{E000}2(\u{E001}", "\u{E000}6&\u{E001}"] {
        let tight = render(&format!("a{}b{}c", marker, marker));
        let wide = render(&format!("a \t{}\n b\u{a0}{}  c", marker, marker));
        assert_eq!(tight, wide);
    }
}

#[test]
fn the_order_of_the_list_does_not_matter() {
    let mut cmds = vec![command("new line", "\n"), command("comma", ","), command("dot", ".")];
    let one = expand_commands("a comma b dot new line c", true, &cmds);
    cmds.reverse();
    assert_eq!(expand_commands("a comma b dot new line c", true, &cmds), one);
    assert_eq!(one, "A, b.\nC");
}

#[test]
fn a_dot_in_a_phrase_is_a_dot() {
    let cmd = command("a.b", "!");
    assert_eq!(mark_phrase("axb a.b", &cmd), "axb \u{E000}0!\u{E001}");
}

#[test]
fn overlapping_places_are_marked_from_the_left() {
    let cmd = command("go go", "!");
    assert_eq!(mark_phrase("go go go", &cmd), "\u{E000}0!\u{E001} go");
}

#[test]
fn a_phrase_too_long_to_search_for_is_skipped() {
    let long = "ab".repeat(1_000_000);
    let cmds = vec![command(&long, "!"), command("period", ".")];
    assert_eq!(expand_commands("a period b", true, &cmds), "A. B");
    assert_eq!(mark_phrase("a b", &cmds[0]), "a b");
}

#[test]
fn blank_phrases_and_empty_replacements_are_skipped() {
    let cmds = vec![command("  ", "!"), command("period", ""), command("", "x")];
    assert_eq!(expand_commands("a period  b", true, &cmds), "A period b");
    assert!(active_order(&cmds).is_empty());
    assert_eq!(mark_phrase("a  b", &cmds[0]), "a  b");
}

#[test]
fn longest_phrases_go_first_and_equal_ones_keep_their_order() {
    let cmds = vec![
        command("line", "1"),
        command("new line", "2"),
        command("neue line", "3"),
        command("mine", "4"),
        command("é", "5"),
        command("ab", "6"),
    ];
    assert_eq!(active_order(&cmds), vec![2, 1, 0, 3, 4, 5]);
    assert_eq!(phrase_weight(&cmds[2]), (2, 9));
    assert_eq!(phrase_weight(&cmds[4]), (1, 2));
}

#[test]
fn open_parenthesis_beats_open_paren() {
    assert_eq!(
        expand_default("see open parenthesis here close parenthesis"),
        "See (here)"
    );
}

#[test]
fn marks_in_a_transcript_are_dropped() {
    assert_eq!(strip_marks("a\u{E000}0b\u{E001}c"), "a0bc");
    assert_eq!(expand_default("a\u{E000} period\u{E001} b"), "A. B");
}

#[test]
fn marked_text_is_taken_apart() {
    let segs = parse("ab\u{E000}0.\u{E001}\u{E000}2(\u{E001} c");
    assert_eq!(segs.len(), 4);
    assert!(matches!(&segs[0], Seg::Text(s) if s == "ab"));
    assert!(matches!(&segs[1], Seg::Cmd(Kind::SentenceEnd, s) if s == "."));
    assert!(matches!(&segs[2], Seg::Cmd(Kind::Open, s) if s == "("));
    assert!(matches!(&segs[3], Seg::Text(s) if s == " c"));
    assert!(parse("").is_empty());
}

#[test]
fn broken_marks_leave_text() {
    assert_eq!(render("ab\u{E000}1cd"), "Ab cd");
    assert_eq!(render("ab\u{E000}"), "Ab ab\u{E000}");
    assert_eq!(render("\u{E000}1"), "");
    assert_eq!((MARK_START, MARK_END), ('\u{E000}', '\u{E001}'));
}

#[test]
fn plain_text_is_collapsed_and_capitalized() {
    assert_eq!(render("  a \t b\n\nc  "), "A b c");
    assert_eq!(render("123 éa b"), "123 Éa b");
    assert_eq!(render("ßa"), "SSa");
    assert_eq!(render("1 2"), "1 2");
    assert_eq!(render(" \t "), "");
}

#[test]
fn a_capital_waits_for_a_letter() {
    assert_eq!(expand_default("a period 3 comma b"), "A. 3, B");
}

#[test]
fn each_kind_is_spaced_its_way() {
    assert_eq!(render("a \u{E000}0.\u{E001} b"), "A. B");
    assert_eq!(render("a \u{E000}1,\u{E001} b"), "A, b");
    assert_eq!(render("a \u{E000}2(\u{E001} b"), "A (b");
    assert_eq!(render("a \u{E000}3)\u{E001} b"), "A) b");
    assert_eq!(render("a \u{E000}4-\u{E001} b"), "A-b");
    assert_eq!(render("a \u{E000}5\n\u{E001} b"), "A\nB");
    assert_eq!(render("a \u{E000}6&\u{E001} b"), "A & b");
    assert_eq!(render("a \u{E000}6\t\u{E001} b"), "A\tb");
    assert_eq!(render("\u{E000}6&\u{E001}b"), "& B");
    assert_eq!(render("a\u{E000}5\n\u{E001}\u{E000}6&\u{E001}"), "A\n&");
}

#[test]
fn edges_are_trimmed() {
    assert_eq!(expand_default("new line a period tab key"), "A.");
    assert_eq!(expand_default("a new line"), "A\n");
    assert_eq!(text::trim(" \u{3000}a \t\n \t"), "a \t\n");
}

#[test]
fn white_space_is_the_unicode_property() {
    for code in 0..=0x10FFFFu32 {
        let Some(c) = char::from_u32(code) else { continue };
        let listed = matches!(
            code,
            0x9..=0xD | 0x20 | 0x85 | 0xA0 | 0x1680 | 0x2000..=0x200A | 0x2028 | 0x2029 | 0x202F
                | 0x205F | 0x3000
        );
        let words = text::split_words(c.to_string().as_str());
        assert_eq!(words.is_empty(), listed);
    }
}

#[test]
fn normalizing_keeps_words() {
    let once = text::normalize("\u{2003}one  two\u{a0}three\r\n");
    assert_eq!(once, "one two three");
    assert_eq!(text::normalize(&once), once);
    assert_eq!(text::split_words("\tone  two "), text::split_words("one two"));
    assert_eq!(text::join(&["a".to_string(), "b".to_string(), "c".to_string()], ", "), "a, b, c");
    assert_eq!(text::join(&[], ", "), "");
}

#[test]
fn endings_are_seen() {
    for (s, expected) in [
        ("", false),
        ("a", false),
        ("a ", true),
        ("a\t", true),
        ("a\n", true),
        ("a\r", false),
        ("é", false),
        ("a\u{2020}", false),
        ("a\u{a0}", false),
        ("\u{1F600}", false),
    ] {
        assert_eq!(text::ends_with_space_or_newline(s), expected);
    }
    assert!(text::ends_with_ascii("éx", b'x'));
}

#[test]
fn trailing_blanks_are_cut() {
    for (s, expected) in [("a \t ", "a"), ("a\n ", "a\n"), (" \t", ""), ("", ""), ("a", "a")] {
        let mut out = s.to_string();
        text::trim_trailing_spaces(&mut out);
        assert_eq!(out, expected);
    }
}

#[test]
fn first_letters_are_found_and_replaced() {
    assert_eq!(text::find_letter("12é"), Some(2));
    assert_eq!(text::find_letter("12"), None);
    assert_eq!(text::capitalize_first("(über)"), "(Über)");
    assert_eq!(text::capitalize_first("ŉx"), "ʼNx");
    assert_eq!(text::replace_char_at("abc", 1, "XY"), "aXYc");
    assert!(text::contains("disclose", "close"));
    assert!(text::contains("x", ""));
    assert!(!text::contains("clos", "close"));
}

#[test]
fn a_sheet_can_be_filled_step_by_step() {
    let mut sheet = Sheet::new();
    sheet.add_words("one", Some("One"));
    sheet.add_command(Kind::Clause, ",");
    sheet.add_text("  two ");
    sheet.add(&Seg::Cmd(Kind::SentenceEnd, "!".to_string()));
    sheet.add_words("", None);
    sheet.add_words("3", None);
    assert_eq!(sheet.out, "One, two! 3");
    assert!(sheet.cap_next);
    assert!(!sheet.glue);
}
