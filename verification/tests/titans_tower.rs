use nara::cadence::channels::{Artifact, DeliveryChannel};
use nara::cadence::error::CadenceError;
use nara::text::IntErrorKind;
use nara::titans_tower::bot::{command_error_reply, INTERNAL_ERROR_REPLY};
use nara::titans_tower::channel::{
    chunk_message, DiscordChannel, DiscordDelivery, DiscordEmbedField, DiscordEmbedPayload,
    DISCORD_EMBED_MIME, DISCORD_MAX_MESSAGE_LEN,
};
use nara::titans_tower::channel_config::{parse_channel_config, parse_channel_config_prefix};
use nara::titans_tower::error::TowerError;
use nara::titans_tower::provision::{in_required_channel, pins_to_unpin, wrong_channel_hint};
use nara::titans_tower::ui::{
    button_id, date_from_parsed, paginate_step, parse_date, parse_rrule, rrule_from_check,
    FieldParseError, PageTurn,
};

fn fake_channel() -> DiscordChannel {
    DiscordChannel::new("discord.test".to_string(), 1)
}

#[test]
fn chunk_message_splits_on_length_boundary() {
    let s = "a".repeat(2500);
    let chunks = chunk_message(&s, 2000);
    assert_eq!(chunks.len(), 2);
    assert_eq!(chunks[0].len(), 2000);
    assert_eq!(chunks[1].len(), 500);
}

#[test]
fn chunk_message_short_input_is_single_chunk() {
    let chunks = chunk_message("hello", 2000);
    assert_eq!(chunks, vec!["hello".to_string()]);
}

#[test]
fn chunk_message_never_splits_a_character() {
    // "é" takes two bytes: a piece of at most 3 bytes holds one of them.
    let chunks = chunk_message("éééé", 3);
    assert_eq!(chunks, vec!["é", "é", "é", "é"]);
    let chunks = chunk_message("abcdé", 5);
    assert_eq!(chunks, vec!["abcd", "é"]);
}

#[test]
fn chunk_message_pieces_join_back_to_the_text() {
    let text = "The quick brown fox ✓ jumps over the lazy dog ✓✓";
    for max in [4usize, 5, 7, 13] {
        let chunks = chunk_message(text, max);
        assert_eq!(chunks.concat(), text);
        for c in &chunks {
            assert!(!c.is_empty());
            assert!(c.len() <= max);
        }
    }
}

#[test]
fn chunk_message_empty_text_is_one_empty_piece() {
    assert_eq!(chunk_message("", 2000), vec!["".to_string()]);
}

#[test]
fn accepts_plain_text_and_embed_bytes() {
    let ch = fake_channel();
    assert!(ch.accepts(&Artifact::PlainText("hi".into())));
    assert!(ch.accepts(&Artifact::Bytes {
        data: b"{}".to_vec(),
        mime: DISCORD_EMBED_MIME.into(),
    }));
    assert!(!ch.accepts(&Artifact::Bytes {
        data: vec![],
        mime: "application/octet-stream".into(),
    }));
    assert!(!ch.accepts(&Artifact::MarkdownFile("/tmp/x.md".into())));
}

#[test]
fn discord_channel_name_and_id() {
    let ch = fake_channel();
    assert_eq!(ch.name(), "discord.test");
    assert_eq!(ch.channel_id, 1);
}

#[test]
fn discord_delivery_chunks_plain_text() {
    let ch = fake_channel();
    let text = "x".repeat(DISCORD_MAX_MESSAGE_LEN + 1);
    match ch.delivery(Artifact::PlainText(text)) {
        Ok(DiscordDelivery::Messages(m)) => {
            assert_eq!(m.len(), 2);
            assert_eq!(m[0].len(), 2000);
            assert_eq!(m[1], "x");
        }
        _ => panic!("plain text is sent as messages"),
    }
}

#[test]
fn discord_delivery_of_embed_and_refusals() {
    let ch = fake_channel();
    match ch.delivery(Artifact::Bytes { data: b"{\"title\":\"t\"}".to_vec(), mime: DISCORD_EMBED_MIME.into() }) {
        Ok(DiscordDelivery::Embed(d)) => assert_eq!(d, b"{\"title\":\"t\"}".to_vec()),
        _ => panic!("embed bytes are sent as an embed"),
    }
    assert!(matches!(
        ch.delivery(Artifact::Bytes { data: vec![1], mime: "text/plain".into() }),
        Err(CadenceError::ArtifactNotAccepted)
    ));
    assert!(matches!(
        ch.delivery(Artifact::MarkdownFile("/tmp/x.md".into())),
        Err(CadenceError::ArtifactNotAccepted)
    ));
}

#[test]
fn embed_payload_default_is_empty() {
    let p = DiscordEmbedPayload::default();
    assert!(p.title.is_none() && p.description.is_none() && p.color.is_none());
    assert!(p.fields.is_empty());
    let f = DiscordEmbedField { name: "key".into(), value: "val".into(), inline: true };
    let p = DiscordEmbedPayload { title: Some("hello".into()), fields: vec![f], ..p };
    assert_eq!(p.fields[0].name, "key");
}

#[test]
fn channel_config_reads_entries_in_order() {
    let r = parse_channel_config(" alerts:123 , ,log : +45,").unwrap();
    assert_eq!(r, vec![("discord.alerts".to_string(), 123), ("discord.log".to_string(), 45)]);
    assert_eq!(parse_channel_config("").unwrap(), vec![]);
    assert_eq!(parse_channel_config(" , ").unwrap(), vec![]);
}

#[test]
fn channel_config_entry_without_colon() {
    match parse_channel_config("a:1,broken") {
        Err(TowerError::ChannelConfig(m)) => assert_eq!(
            m,
            "invalid NARA_DISCORD_CHANNELS entry `broken` \u{2014} expected `name:channel_id`"
        ),
        _ => panic!("an entry without `:` is refused"),
    }
}

#[test]
fn channel_config_keeps_the_entries_before_a_bad_one() {
    let (entries, error) = parse_channel_config_prefix("a:1, ,b:2,broken,c:3");
    assert_eq!(entries, vec![("discord.a".to_string(), 1), ("discord.b".to_string(), 2)]);
    assert_eq!(
        error,
        Some(TowerError::ChannelConfig(
            "invalid NARA_DISCORD_CHANNELS entry `broken` \u{2014} expected `name:channel_id`".to_string()
        ))
    );
    let (entries, error) = parse_channel_config_prefix("a:1,b:2");
    assert_eq!(entries, vec![("discord.a".to_string(), 1), ("discord.b".to_string(), 2)]);
    assert_eq!(error, None);
    let (entries, error) = parse_channel_config_prefix("x:nope,a:1");
    assert!(entries.is_empty());
    assert!(matches!(error, Some(TowerError::ChannelConfig(_))));
}

#[test]
fn channel_config_bad_ids() {
    let msg = |spec: &str| match parse_channel_config(spec) {
        Err(TowerError::ChannelConfig(m)) => m,
        Ok(_) => panic!("refused"),
    };
    assert_eq!(
        msg("a:"),
        "invalid channel id in NARA_DISCORD_CHANNELS entry `a:`: cannot parse integer from empty string"
    );
    assert_eq!(
        msg("a:12x"),
        "invalid channel id in NARA_DISCORD_CHANNELS entry `a:12x`: invalid digit found in string"
    );
    assert_eq!(
        msg("a:-1"),
        "invalid channel id in NARA_DISCORD_CHANNELS entry `a:-1`: invalid digit found in string"
    );
    assert_eq!(
        msg("a:18446744073709551616"),
        "invalid channel id in NARA_DISCORD_CHANNELS entry `a:18446744073709551616`: number too large to fit in target type"
    );
    // the first bad entry is the one reported
    assert_eq!(
        msg("x,a:"),
        "invalid NARA_DISCORD_CHANNELS entry `x` \u{2014} expected `name:channel_id`"
    );
}

#[test]
fn channel_config_largest_id() {
    let r = parse_channel_config("max:18446744073709551615").unwrap();
    assert_eq!(r[0].1, u64::MAX);
    // the name is cut at the first colon
    let r = parse_channel_config("a:b:1");
    assert!(matches!(r, Err(TowerError::ChannelConfig(_))));
}

#[test]
fn int_error_messages_match_std() {
    for (s, k) in [("", IntErrorKind::Empty), ("x", IntErrorKind::InvalidDigit), ("99999999999999999999", IntErrorKind::PosOverflow)] {
        let std_msg = s.parse::<u64>().unwrap_err().to_string();
        assert_eq!(k.message(), std_msg);
        assert_eq!(nara::text::parse_u64(s), Err(k));
    }
    assert_eq!(nara::text::parse_u64("+7"), Ok(7));
    assert_eq!(nara::text::parse_u64("+"), Err(IntErrorKind::InvalidDigit));
}

#[test]
fn tower_error_message() {
    let e = TowerError::ChannelConfig("bad".into());
    assert_eq!(e.message(), "discord channel config: bad");
}

#[test]
fn parse_date_reads_month_day_year() {
    assert_eq!(parse_date("start", "01-05-2026"), Ok(1767571200));
    match parse_date("start", "2026-01-05") {
        Err(e @ FieldParseError::InvalidDate { .. }) => assert_eq!(
            e.message(),
            "failed to parse `start` as date (expected format MM-DD-YYYY, got `2026-01-05`)"
        ),
        _ => panic!("not MM-DD-YYYY"),
    }
    assert!(parse_date("d", "13-01-2026").is_err());
}

#[test]
fn date_from_parsed_passes_the_date_or_names_the_field() {
    assert_eq!(date_from_parsed("f", "v", Some(5)), Ok(5));
    assert_eq!(
        date_from_parsed("f", "v", None),
        Err(FieldParseError::InvalidDate { field: "f".into(), value: "v".into() })
    );
}

#[test]
fn parse_rrule_checks_the_rule() {
    assert_eq!(parse_rrule("rule", "FREQ=DAILY;COUNT=3", 1767571200), Ok("FREQ=DAILY;COUNT=3".to_string()));
    match parse_rrule("rule", "NOT A RULE", 1767571200) {
        Err(e @ FieldParseError::InvalidRRule { .. }) => {
            assert_eq!(e.message(), "failed to parse `rule` as RRULE (`NOT A RULE`)")
        }
        _ => panic!("not a rule"),
    }
    assert_eq!(rrule_from_check("f", "v", true), Ok("v".to_string()));
    assert_eq!(
        rrule_from_check("f", "v", false),
        Err(FieldParseError::InvalidRRule { field: "f".into(), value: "v".into() })
    );
}

#[test]
fn paginate_turns_pages_and_chooses_actions() {
    let actions = vec!["keep".to_string(), "drop".to_string(), "keep".to_string()];
    let prefix = "42";
    assert_eq!(paginate_step(0, 3, prefix, &button_id(prefix, "next"), &actions), PageTurn::Show(1));
    assert_eq!(paginate_step(2, 3, prefix, &button_id(prefix, "next"), &actions), PageTurn::Show(0));
    assert_eq!(paginate_step(0, 3, prefix, &button_id(prefix, "prev"), &actions), PageTurn::Show(2));
    assert_eq!(paginate_step(1, 3, prefix, "42prev", &actions), PageTurn::Show(0));
    assert_eq!(paginate_step(1, 3, prefix, "42drop", &actions), PageTurn::Chosen(1));
    // the first action with an id wins
    assert_eq!(paginate_step(1, 3, prefix, "42keep", &actions), PageTurn::Chosen(0));
    assert_eq!(paginate_step(1, 3, prefix, "42other", &actions), PageTurn::Ignore);
    // a press for another message has no suffix
    assert_eq!(paginate_step(1, 3, prefix, "7next", &actions), PageTurn::Ignore);
}

#[test]
fn paginate_next_then_prev_returns() {
    let none: Vec<String> = vec![];
    for pages in 1..5usize {
        for cur in 0..pages {
            let PageTurn::Show(n) = paginate_step(cur, pages, "p", "pnext", &none) else { panic!() };
            let PageTurn::Show(back) = paginate_step(n, pages, "p", "pprev", &none) else { panic!() };
            assert_eq!(back, cur);
        }
    }
}

#[test]
fn command_error_replies() {
    assert_eq!(command_error_reply(true, "no such habit"), "Error: no such habit");
    assert_eq!(command_error_reply(false, "db down"), INTERNAL_ERROR_REPLY);
    assert_eq!(INTERNAL_ERROR_REPLY, "Internal error — check the logs.");
}

#[test]
fn channel_checks() {
    assert!(in_required_channel(Some("print"), "print"));
    assert!(!in_required_channel(Some("general"), "print"));
    assert!(!in_required_channel(None, "print"));
    assert_eq!(wrong_channel_hint("print"), "This command can only be used in #print.");
    assert_eq!(pins_to_unpin(&vec![7, 1, 7, 3], 7), vec![0, 2]);
    assert_eq!(pins_to_unpin(&vec![], 7), Vec::<usize>::new());
}
