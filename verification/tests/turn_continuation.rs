use vibe_kanban::turn_continuation::{
    build_turn_continuation_prompt, parse_vk_next_action, parse_vk_next_action_detailed,
    strip_vk_next_lines, VkNextAction, VkNextParseResult,
};

#[test]
fn parse_vk_next_action_parses_simple_line() {
    assert_eq!(
        parse_vk_next_action("VK_NEXT: continue"),
        Some(VkNextAction::Continue)
    );
    assert_eq!(
        parse_vk_next_action("VK_NEXT: review"),
        Some(VkNextAction::Review)
    );
}

#[test]
fn parse_vk_next_action_parses_bullet_line() {
    assert_eq!(
        parse_vk_next_action("- VK_NEXT: continue"),
        Some(VkNextAction::Continue)
    );
    assert_eq!(
        parse_vk_next_action("* VK_NEXT: review"),
        Some(VkNextAction::Review)
    );
}

#[test]
fn parse_vk_next_action_returns_none_when_missing() {
    assert_eq!(parse_vk_next_action("done"), None);
}

#[test]
fn parse_vk_next_action_returns_none_when_invalid_value() {
    assert_eq!(parse_vk_next_action("VK_NEXT: maybe"), None);
}

#[test]
fn parse_vk_next_action_detailed_distinguishes_missing_vs_invalid() {
    assert_eq!(
        parse_vk_next_action_detailed("done"),
        VkNextParseResult::Missing
    );
    assert_eq!(
        parse_vk_next_action_detailed("VK_NEXT: maybe"),
        VkNextParseResult::Invalid {
            raw: "maybe".to_string()
        }
    );
}

#[test]
fn strip_vk_next_lines_removes_marker_lines() {
    let text = "Summary line\nVK_NEXT: continue\nMore details\n- VK_NEXT: review\n";
    assert_eq!(strip_vk_next_lines(text), "Summary line\nMore details");
}

#[test]
fn parse_vk_next_action_parses_case_insensitive_prefix() {
    assert_eq!(
        parse_vk_next_action("vk_next: continue"),
        Some(VkNextAction::Continue)
    );
    assert_eq!(
        parse_vk_next_action("Vk_NeXt: review"),
        Some(VkNextAction::Review)
    );
    assert_eq!(strip_vk_next_lines("vk_next: continue"), "");
}

#[test]
fn vk_next_parsing_is_utf8_safe_for_multilingual_text() {
    let samples = [
        "我用的是 `openspec-explore`（探索模式：只调研/设计，不落地实现）。当前没有活动中的 OpenSpec change（`openspec list --json` 返回空）。",
        "こんにちは世界",
        "안녕하세요 세계",
        "مرحبا بالعالم",
        "שלום עולם",
        "Здравствуйте мир",
        "हैलो वर्ल्ड",
        "😀😃😄😁",
        "• VK_NEXT: continue (not supported marker style)",
        "aéééééééééé",
        "前缀 VK_NEXT: continue 后缀",
    ];

    for text in samples {
        assert_eq!(parse_vk_next_action(text), None);
        assert_eq!(strip_vk_next_lines(text), text.to_string());
    }
}

#[test]
fn first_marker_line_decides_and_word_stops_at_whitespace() {
    assert_eq!(
        parse_vk_next_action_detailed("intro\r\n  *   VK_NEXT:   review please\nVK_NEXT: continue"),
        VkNextParseResult::Parsed(VkNextAction::Review)
    );
    assert_eq!(
        parse_vk_next_action_detailed("VK_NEXT:"),
        VkNextParseResult::Invalid { raw: String::new() }
    );
    assert_eq!(
        parse_vk_next_action_detailed("VK_NEXT:Continue"),
        VkNextParseResult::Invalid { raw: "Continue".to_string() }
    );
}

#[test]
fn strip_keeps_original_lines_and_trims_the_whole_text() {
    assert_eq!(
        strip_vk_next_lines("\n  keep me  \r\n- vk_next: continue\n\nlast\n"),
        "keep me  \n\nlast"
    );
}

#[test]
fn continuation_prompt_reports_turns_and_summary() {
    let prompt = build_turn_continuation_prompt(Some("  did things  "), 3);
    assert!(prompt.starts_with(
        "This is an automated continuation turn for the same Vibe Kanban task session.\nRemaining continuation turns after this one: 3\n\nPrevious turn summary:\ndid things\n\nInstructions:\n"
    ));
    assert!(prompt.ends_with("Put the VK_NEXT line near the top of your final message so it is easy to parse."));
    assert!(prompt.contains("\nVK_NEXT: continue\nor\nVK_NEXT: review\n"));

    let prompt = build_turn_continuation_prompt(Some("   "), -5);
    assert!(prompt.contains("after this one: 0\n"));
    assert!(prompt.contains("summary:\nNo summary available from the previous turn.\n"));

    let prompt = build_turn_continuation_prompt(None, 120);
    assert!(prompt.contains("after this one: 120\n"));
    assert!(prompt.contains("summary:\nNo summary available from the previous turn.\n"));
}

#[test]
fn stripped_text_has_no_marker_left() {
    for text in [
        "Summary\nVK_NEXT: continue\nMore",
        "  vk_next: review  \r\n- VK_NEXT: continue\r\n",
        "VK_NEXT: nonsense",
        "\n\n  * vk_next:  \n tail",
        "",
    ] {
        let stripped = strip_vk_next_lines(text);
        assert_eq!(parse_vk_next_action_detailed(&stripped), VkNextParseResult::Missing);
    }
}

#[test]
fn stripping_twice_changes_nothing_and_leaves_no_marker() {
    let text = "  Done with step one.\n- VK_NEXT: continue\n\nNext part\n  vk_next: review  \nEnd \n";
    let once = strip_vk_next_lines(text);
    assert_eq!(once, "Done with step one.\n\nNext part\nEnd");
    assert_eq!(strip_vk_next_lines(&once), once);
    assert_eq!(parse_vk_next_action(&once), None);
    assert!(matches!(parse_vk_next_action_detailed(&once), VkNextParseResult::Missing));
}
