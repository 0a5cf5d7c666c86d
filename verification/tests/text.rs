use personal_knowledge_os::text::{normalize_whitespace, str_contains, trimmed_string, white_space};

#[test]
fn whitespace_agrees_with_std_on_every_char() {
    for u in 0u32..=0x10FFFF {
        if let Some(c) = char::from_u32(u) {
            assert_eq!(white_space(c), c.is_whitespace(), "U+{u:04X}");
        }
    }
}

#[test]
fn trimming_and_normalising_agree_with_std() {
    let samples = [
        "",
        "   ",
        " a ",
        "\u{2003}x\u{2028}y\u{3000}",
        "a\u{0085}b \t c\r\n",
        "日本語 の\u{00A0}テキスト ",
        "\u{200B}zero width is not space\u{200B}",
    ];
    for s in samples {
        assert_eq!(trimmed_string(s), s.trim(), "{s:?}");
        assert_eq!(normalize_whitespace(s), s.split_whitespace().collect::<Vec<_>>().join(" "), "{s:?}");
    }
}

#[test]
fn containment_agrees_with_std() {
    let hay = "I decided to use Bifrost.";
    for needle in ["", "Bifrost", "bifrost", "use B", ".", "Bifrost. ", hay] {
        assert_eq!(str_contains(hay, needle), hay.contains(needle), "{needle:?}");
    }
}

#[test]
fn normal_form_is_trimmed_single_spaced_and_stable() {
    for s in ["", "  ", " a  b\t\nc ", "\u{3000}日本\u{00A0}語 x", "one"] {
        let n = normalize_whitespace(s);
        assert_eq!(n.trim(), n);
        assert!(!n.contains("  "));
        assert!(n.chars().all(|c| !c.is_whitespace() || c == ' '));
        assert_eq!(normalize_whitespace(&n), n);
        assert_eq!(n.split_whitespace().collect::<Vec<_>>(), s.split_whitespace().collect::<Vec<_>>());
    }
}
