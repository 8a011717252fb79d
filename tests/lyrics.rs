use lyrics::source::{ovh_url, require_field, require_id, search_keyword};
use lyrics::cache::CacheManager;
use lyrics::client::{next_fetch_step, FetchEvent, FetchStep};
use lyrics::decode::{kugou_decode_lyric, non_empty_lyric, qqmusic_decode_lyric};
use lyrics::error::LyricError;
use lyrics::lrc::{parse_lines, LyricLine, LyricParser};
use lyrics::player::{identity_allowed, is_valid_player, seek_target, PlayerAction};
use lyrics::position::{PlayTime, Sample};
use lyrics::retry::{RetryPolicy, RetryStep};
use lyrics::song::SongInfo;

fn spans(lines: &[LyricLine]) -> Vec<(u64, u64, String)> {
    lines
        .iter()
        .map(|l| (l.timestamp_start, l.timestamp_end, l.text.clone()))
        .collect()
}

fn song(artist: &str, title: &str) -> SongInfo {
    SongInfo::new("/track/1".to_string(), title.to_string(), artist.to_string(), 0)
}

#[test]
fn parse_two_lines() {
    let r = LyricParser::parse("[00:01.50]Hello\n[00:03.00]World", 1000).unwrap();
    assert_eq!(
        spans(&r),
        vec![(150, 300, "Hello".to_string()), (300, 1000, "World".to_string())]
    );
}

#[test]
fn parse_two_tags_share_text() {
    let r = LyricParser::parse("[00:00.00][00:05.00]Chorus", 1000).unwrap();
    assert_eq!(
        spans(&r),
        vec![(0, 500, "Chorus".to_string()), (500, 1000, "Chorus".to_string())]
    );
}

#[test]
fn parse_without_tags_is_empty() {
    assert_eq!(
        LyricParser::parse("just words\nmore words", 1000).unwrap_err(),
        LyricError::EmptyLyric
    );
    assert_eq!(LyricParser::parse("", 1000).unwrap_err(), LyricError::EmptyLyric);
}

#[test]
fn parse_unclosed_bracket_is_text() {
    assert_eq!(
        LyricParser::parse("[00:01 open", 1000).unwrap_err(),
        LyricError::EmptyLyric
    );
}

#[test]
fn parse_malformed_tag_fails() {
    assert_eq!(
        LyricParser::parse("[00:01.00]ok\n[ab:cd]bad", 1000).unwrap_err(),
        LyricError::InvalidTimeFormat
    );
    assert_eq!(
        LyricParser::parse("[12]x", 1000).unwrap_err(),
        LyricError::InvalidTimeFormat
    );
}

#[test]
fn parse_fraction_is_hundredths() {
    let r = LyricParser::parse("[00:01.500]x", 2000).unwrap();
    assert_eq!(spans(&r), vec![(600, 2000, "x".to_string())]);
    let r = LyricParser::parse("[01:02:03]y", 9000).unwrap();
    assert_eq!(spans(&r), vec![(6203, 9000, "y".to_string())]);
    let r = LyricParser::parse("[00:04.zz]z", 900).unwrap();
    assert_eq!(spans(&r), vec![(400, 900, "z".to_string())]);
}

#[test]
fn parse_sorts_stably() {
    let r = LyricParser::parse("[00:02]b\n[00:01]a\n[00:02]c", 500).unwrap();
    assert_eq!(
        spans(&r),
        vec![
            (100, 200, "a".to_string()),
            (200, 200, "b".to_string()),
            (200, 500, "c".to_string())
        ]
    );
}

#[test]
fn parse_trims_text_and_lines() {
    let r = LyricParser::parse("  [00:01.00]  padded text  \r\n", 300).unwrap();
    assert_eq!(spans(&r), vec![(100, 300, "padded text".to_string())]);
}

#[test]
fn parse_lines_is_contiguous() {
    let lines: Vec<Vec<char>> = ["[00:03]c", "[00:01]a", "[00:02]b"]
        .iter()
        .map(|s| s.chars().collect())
        .collect();
    let r = parse_lines(&lines, 700).unwrap();
    for i in 0..r.len() - 1 {
        assert_eq!(r[i].timestamp_end, r[i + 1].timestamp_start);
    }
    assert_eq!(r[r.len() - 1].timestamp_end, 700);
}

#[test]
fn position_extrapolates_after_failed_poll() {
    let st = PlayTime::default();
    let st = st.update(Some(10_000), 1_000);
    assert_eq!(st.current_time, 10_000);
    assert_eq!(st.last_valid_pos, Some(Sample { at: 1_000, pos: 10_000 }));
    let st = st.update(None, 5_000);
    assert_eq!(st.current_time, 14_000);
}

#[test]
fn position_without_sample_stays() {
    let st = PlayTime { current_time: 7, last_valid_pos: None };
    assert_eq!(st.update(None, 99), st);
}

#[test]
fn retry_backs_off_then_gives_up() {
    let p = RetryPolicy::new();
    assert_eq!(p.retries, 3);
    let steps: Vec<RetryStep> = (0..4).map(|a| p.after_failure(a)).collect();
    assert_eq!(
        steps,
        vec![
            RetryStep::Retry { delay_secs: 1 },
            RetryStep::Retry { delay_secs: 2 },
            RetryStep::Retry { delay_secs: 4 },
            RetryStep::GiveUp
        ]
    );
    let total: u64 = steps
        .iter()
        .map(|s| match s {
            RetryStep::Retry { delay_secs } => *delay_secs,
            RetryStep::GiveUp => 0,
        })
        .sum();
    assert_eq!(total, 7);
}

#[test]
fn fallback_stops_at_first_success() {
    let n = 3;
    let mut asked = Vec::new();
    let results = [false, true, true];
    let mut step = next_fetch_step(n, FetchEvent::CacheMiss);
    while let FetchStep::TrySource(i) = step {
        asked.push(i);
        let ev = if results[i] {
            FetchEvent::SourceSucceeded(i)
        } else {
            FetchEvent::SourceFailed(i)
        };
        step = next_fetch_step(n, ev);
    }
    assert_eq!(asked, vec![0, 1]);
    assert_eq!(step, FetchStep::StoreAndReturn(1));
}

#[test]
fn fallback_cache_and_exhaustion() {
    assert_eq!(next_fetch_step(3, FetchEvent::CacheHit), FetchStep::ReturnCached);
    assert_eq!(next_fetch_step(3, FetchEvent::SourceFailed(2)), FetchStep::NoLyricFound);
    assert_eq!(next_fetch_step(0, FetchEvent::CacheMiss), FetchStep::NoLyricFound);
}

#[test]
fn cache_key_sanitizes() {
    let s = song("AC/DC", "Back: in Black");
    assert_eq!(CacheManager::cache_key(&s), "ACDC_Back in Black.lrc");
    let c = CacheManager::with_base_dir("/tmp/lyrics".to_string());
    assert_eq!(c.lyric_name(&s), "/tmp/lyrics/ACDC_Back in Black.lrc");
}

#[test]
fn cache_key_stable_and_distinct() {
    let a = CacheManager::cache_key(&song("Artist", "Title"));
    let b = CacheManager::cache_key(&song("Artist", "Title"));
    assert_eq!(a, b);
    assert_ne!(a, CacheManager::cache_key(&song("Artist", "Title 2")));
    assert_eq!(
        CacheManager::cache_key(&song("A?B", "T")),
        CacheManager::cache_key(&song("AB", "T"))
    );
}

#[test]
fn decode_payloads() {
    assert_eq!(kugou_decode_lyric("aGVsbG8=").unwrap(), "hello");
    assert_eq!(qqmusic_decode_lyric("aGVsbG8=").unwrap(), "hello");
    assert_eq!(kugou_decode_lyric("!!!").unwrap_err(), LyricError::DecodeError);
    assert_eq!(qqmusic_decode_lyric("!!!").unwrap_err(), LyricError::LyricDecodeError);
    assert_eq!(kugou_decode_lyric("").unwrap_err(), LyricError::NoLyricFound);
    assert_eq!(kugou_decode_lyric("/w==").unwrap_err(), LyricError::LyricDecodeError);
}

#[test]
fn lyric_field_must_be_present() {
    assert_eq!(non_empty_lyric(Some("x".to_string())).unwrap(), "x");
    assert_eq!(non_empty_lyric(Some(String::new())).unwrap_err(), LyricError::NoLyricFound);
    assert_eq!(non_empty_lyric(None).unwrap_err(), LyricError::NoLyricFound);
}

#[test]
fn player_denylist() {
    assert!(!is_valid_player("Mozilla Firefox"));
    assert!(!is_valid_player("Chromium"));
    assert!(!is_valid_player("MPV Video Player"));
    assert!(is_valid_player("Spotify"));
    assert!(identity_allowed("rhythmbox"));
    assert!(!identity_allowed("screen-cast portal"));
}

#[test]
fn seek_targets() {
    assert_eq!(seek_target(PlayerAction::Left, 7_000_000), Some(2_000_000));
    assert_eq!(seek_target(PlayerAction::Left, 4_000_000), None);
    assert_eq!(seek_target(PlayerAction::Right, 1_000_000), Some(6_000_000));
    assert_eq!(seek_target(PlayerAction::Next, 1), None);
    assert_eq!(PlayerAction::default(), PlayerAction::Toggle);
}

#[test]
fn songs_compare_by_fields() {
    assert!(song("a", "b") == song("a", "b"));
    assert!(song("a", "b") != song("a", "c"));
    assert_eq!(LyricError::EmptyLyric.message(), "Empty lyric content");
}

#[test]
fn cache_key_underscore_ambiguity() {
    assert_eq!(
        CacheManager::cache_key(&song("a_b", "c")),
        CacheManager::cache_key(&song("a", "b_c"))
    );
}

#[test]
fn source_helpers() {
    let s = song("Queen", "Bohemian Rhapsody");
    assert_eq!(search_keyword(&s), "Bohemian Rhapsody Queen");
    assert_eq!(ovh_url(&s), "https://api.lyrics.ovh/v1/Queen/Bohemian Rhapsody");
    assert_eq!(require_field(Some("h".to_string())).unwrap(), "h");
    assert_eq!(require_field(None).unwrap_err(), LyricError::NoLyricFound);
    assert_eq!(require_id(Some(42)).unwrap(), 42);
    assert_eq!(require_id(None).unwrap_err(), LyricError::NoLyricFound);
}
