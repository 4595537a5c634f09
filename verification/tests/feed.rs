use drop_farm::channel::Channel;
use drop_farm::feed::{
    classify_report, decode, react, topic_of, topics_of, FeedMessage, FeedReaction, Subscriptions,
};
use drop_farm::registry::TrackedChannels;
use drop_farm::text::{has_infix, last_segment_of};

fn report(topic: &str, inner: &str) -> String {
    let escaped = inner.replace('\\', "\\\\").replace('"', "\\\"");
    format!(
        "{{\"type\":\"MESSAGE\",\"data\":{{\"topic\":\"{}\",\"message\":\"{}\"}}}}",
        topic, escaped
    )
}

fn interpret(text: &str) -> FeedReaction {
    react(&decode(text))
}

fn viewers_report(topic: &str, viewers: Option<u64>) -> FeedMessage {
    FeedMessage {
        ping: false,
        document: true,
        error: false,
        topic: topic.to_string(),
        report: true,
        viewers,
    }
}

fn pool_of(channels: &[(&str, &str)]) -> TrackedChannels {
    let mut pool = TrackedChannels::new();
    for (id, login) in channels {
        pool.insert(Channel::new(id, login));
    }
    pool
}

#[test]
fn topic_names_the_channel_id() {
    assert_eq!(topic_of("12345"), "video-playback-by-id.12345");
    assert_eq!(topic_of(""), "video-playback-by-id.");
}

#[test]
fn topics_follow_the_channels() {
    let topics = topics_of(&vec![Channel::new("1", "a"), Channel::new("22", "b")]);
    assert_eq!(topics, vec!["video-playback-by-id.1", "video-playback-by-id.22"]);
}

#[test]
fn last_segment_is_what_follows_the_last_dot() {
    assert_eq!(last_segment_of("video-playback-by-id.12345"), "12345");
    assert_eq!(last_segment_of("a.b.c"), "c");
    assert_eq!(last_segment_of("nodots"), "nodots");
    assert_eq!(last_segment_of("trailing."), "");
    assert_eq!(last_segment_of(""), "");
    assert_eq!(last_segment_of(&topic_of("777")), "777");
}

#[test]
fn infix_search_finds_what_is_there() {
    assert!(has_infix("abcdef", "cde"));
    assert!(has_infix("abcdef", "abcdef"));
    assert!(has_infix("abcdef", ""));
    assert!(has_infix("", ""));
    assert!(!has_infix("abcdef", "cdf"));
    assert!(!has_infix("abc", "abcd"));
    assert!(has_infix("ünïcödé", "cö"));
}

#[test]
fn report_of_no_viewers_names_the_channel() {
    assert_eq!(classify_report("video-playback-by-id.5", Some(0)), Some("5".to_string()));
}

#[test]
fn report_with_viewers_names_no_channel() {
    assert_eq!(classify_report("video-playback-by-id.5", Some(1)), None);
    assert_eq!(classify_report("video-playback-by-id.5", Some(u64::MAX)), None);
}

#[test]
fn report_without_a_count_means_the_channel_is_gone() {
    assert_eq!(classify_report("video-playback-by-id.5", None), Some("5".to_string()));
}

#[test]
fn keepalive_is_answered() {
    let r = interpret("{\"type\":\"PING\"}");
    assert!(r.pong);
    assert_eq!(r.evict, None);
}

#[test]
fn keepalive_marker_is_read_by_the_letter() {
    assert!(!interpret("{\"type\": \"PING\"}").pong);
    assert!(!interpret("{\"type\":\"PONG\"}").pong);
}

#[test]
fn viewcount_zero_message_evicts() {
    let text = report(
        "video-playback-by-id.123",
        "{\"type\":\"viewcount\",\"server_time\":1700000000.5,\"viewers\":0}",
    );
    let r = interpret(&text);
    assert!(!r.pong);
    assert_eq!(r.evict, Some("123".to_string()));
}

#[test]
fn viewcount_message_with_viewers_evicts_nothing() {
    let text = report(
        "video-playback-by-id.123",
        "{\"type\":\"viewcount\",\"server_time\":1700000000.5,\"viewers\":17}",
    );
    assert_eq!(interpret(&text).evict, None);
}

#[test]
fn message_without_viewer_count_evicts() {
    let text = report("video-playback-by-id.123", "{\"type\":\"stream-down\",\"server_time\":1.0}");
    assert_eq!(interpret(&text).evict, Some("123".to_string()));
}

#[test]
fn viewer_count_that_is_no_number_counts_as_missing() {
    let text = report("video-playback-by-id.123", "{\"viewers\":\"0\"}");
    assert_eq!(interpret(&text).evict, Some("123".to_string()));
    let negative = report("video-playback-by-id.123", "{\"viewers\":-1}");
    assert_eq!(interpret(&negative).evict, Some("123".to_string()));
}

#[test]
fn error_message_evicts_nothing() {
    let r = interpret("{\"type\":\"RESPONSE\",\"error\":\"ERR_BADAUTH\",\"nonce\":\"\"}");
    assert_eq!(r.evict, None);
    let ok = interpret("{\"type\":\"RESPONSE\",\"error\":\"\",\"nonce\":\"\"}");
    assert_eq!(ok.evict, None);
}

#[test]
fn malformed_message_is_skipped() {
    assert_eq!(interpret("not json").evict, None);
    assert_eq!(interpret("").evict, None);
    assert_eq!(interpret("{\"type\":\"MESSAGE\"}").evict, None);
    assert_eq!(interpret("{\"type\":\"MESSAGE\",\"data\":{\"topic\":\"t.1\"}}").evict, None);
    let broken_inner = report("video-playback-by-id.123", "{\"viewers\":");
    assert_eq!(interpret(&broken_inner).evict, None);
}

#[test]
fn report_without_topic_names_the_empty_id() {
    let text = "{\"data\":{\"message\":\"{\\\"viewers\\\":0}\"}}";
    assert_eq!(interpret(text).evict, Some(String::new()));
}

#[test]
fn new_connection_has_no_subscriptions() {
    let subs = Subscriptions::new();
    assert_eq!(subs.len(), 0);
    assert!(subs.to_vec().is_empty());
}

#[test]
fn sync_subscribes_to_new_channels() {
    let pool = pool_of(&[("1", "a"), ("2", "b")]);
    let mut subs = Subscriptions::new();
    let commands = subs.sync(&pool);
    assert_eq!(commands.listen, vec!["video-playback-by-id.1", "video-playback-by-id.2"]);
    assert!(commands.unlisten.is_empty());
    assert_eq!(subs.to_vec(), pool.to_vec());
}

#[test]
fn sync_without_changes_sends_nothing() {
    let pool = pool_of(&[("1", "a"), ("2", "b")]);
    let mut subs = Subscriptions::new();
    subs.sync(&pool);
    let commands = subs.sync(&pool);
    assert!(commands.listen.is_empty());
    assert!(commands.unlisten.is_empty());
    assert_eq!(subs.len(), 2);
}

#[test]
fn sync_unsubscribes_from_channels_that_left() {
    let mut pool = pool_of(&[("1", "a"), ("2", "b"), ("3", "c")]);
    let mut subs = Subscriptions::new();
    subs.sync(&pool);
    pool.remove(&Channel::new("2", "b"));
    pool.insert(Channel::new("4", "d"));
    let commands = subs.sync(&pool);
    assert_eq!(commands.listen, vec!["video-playback-by-id.4"]);
    assert_eq!(commands.unlisten, vec!["video-playback-by-id.2"]);
    assert_eq!(
        subs.to_vec(),
        vec![Channel::new("1", "a"), Channel::new("3", "c"), Channel::new("4", "d")]
    );
    assert!(!subs.contains(&Channel::new("2", "b")));
}

#[test]
fn zero_viewers_removes_the_channel_from_set_and_subscriptions() {
    let mut pool = pool_of(&[("1", "a"), ("2", "b")]);
    let mut subs = Subscriptions::new();
    subs.sync(&pool);
    let reaction = subs.on_feed(&mut pool, &viewers_report(&topic_of("1"), Some(0)));
    assert_eq!(reaction, FeedReaction { pong: false, evict: Some("1".to_string()) });
    assert!(!pool.contains(&Channel::new("1", "a")));
    assert!(!subs.contains(&Channel::new("1", "a")));
    assert_eq!(pool.to_vec(), vec![Channel::new("2", "b")]);
    assert_eq!(subs.to_vec(), vec![Channel::new("2", "b")]);
    let commands = subs.sync(&pool);
    assert!(commands.listen.is_empty());
    assert!(commands.unlisten.is_empty());
}

#[test]
fn viewers_present_removes_nothing() {
    let mut pool = pool_of(&[("1", "a"), ("2", "b")]);
    let mut subs = Subscriptions::new();
    subs.sync(&pool);
    let reaction = subs.on_feed(&mut pool, &viewers_report(&topic_of("1"), Some(3)));
    assert_eq!(reaction, FeedReaction { pong: false, evict: None });
    assert_eq!(pool.len(), 2);
    assert_eq!(subs.len(), 2);
}

#[test]
fn message_of_the_feed_evicts_within_one_call() {
    let mut pool = pool_of(&[("123", "a"), ("2", "b")]);
    let mut subs = Subscriptions::new();
    subs.sync(&pool);
    let text = report("video-playback-by-id.123", "{\"type\":\"viewcount\",\"viewers\":0}");
    let reaction = subs.on_message(&mut pool, &text);
    assert_eq!(reaction.evict, Some("123".to_string()));
    assert!(!reaction.pong);
    assert!(!pool.contains_id("123"));
    assert_eq!(subs.to_vec(), vec![Channel::new("2", "b")]);
}

#[test]
fn evict_of_an_unknown_id_changes_nothing() {
    let mut pool = pool_of(&[("1", "a")]);
    let mut subs = Subscriptions::new();
    subs.sync(&pool);
    subs.evict(&mut pool, "9");
    assert_eq!(pool.len(), 1);
    assert_eq!(subs.len(), 1);
}

#[test]
fn decode_reads_the_fields_of_a_report() {
    let text = report("video-playback-by-id.123", "{\"type\":\"viewcount\",\"viewers\":7}");
    assert_eq!(
        decode(&text),
        FeedMessage {
            ping: false,
            document: true,
            error: false,
            topic: "video-playback-by-id.123".to_string(),
            report: true,
            viewers: Some(7),
        }
    );
}

#[test]
fn decode_reads_an_error_response() {
    assert_eq!(
        decode("{\"type\":\"RESPONSE\",\"error\":\"\",\"nonce\":\"n\"}"),
        FeedMessage {
            ping: false,
            document: true,
            error: true,
            topic: String::new(),
            report: false,
            viewers: None,
        }
    );
}

#[test]
fn decode_of_text_that_is_no_json() {
    assert_eq!(
        decode("\"type\":\"PING\" but no document"),
        FeedMessage {
            ping: true,
            document: false,
            error: false,
            topic: String::new(),
            report: false,
            viewers: None,
        }
    );
}

#[test]
fn decode_ignores_a_topic_that_is_no_string() {
    let message = decode("{\"data\":{\"topic\":5,\"message\":\"{}\"}}");
    assert_eq!(message.topic, "");
    assert!(message.report);
    assert_eq!(message.viewers, None);
}

#[test]
fn react_answers_a_keepalive_and_evicts_nothing_for_it() {
    let message = FeedMessage {
        ping: true,
        document: true,
        error: false,
        topic: String::new(),
        report: false,
        viewers: None,
    };
    assert_eq!(react(&message), FeedReaction { pong: true, evict: None });
}

#[test]
fn react_skips_an_error_even_with_a_report() {
    let mut message = viewers_report("video-playback-by-id.9", Some(0));
    message.error = true;
    assert_eq!(react(&message), FeedReaction { pong: false, evict: None });
}

#[test]
fn react_skips_what_is_no_document_or_no_report() {
    let mut message = viewers_report("video-playback-by-id.9", Some(0));
    message.report = false;
    assert_eq!(react(&message).evict, None);
    let mut other = viewers_report("video-playback-by-id.9", Some(0));
    other.document = false;
    assert_eq!(react(&other).evict, None);
}

#[test]
fn react_evicts_on_a_report_of_no_viewers() {
    let message = viewers_report("video-playback-by-id.9", Some(0));
    assert_eq!(react(&message), FeedReaction { pong: false, evict: Some("9".to_string()) });
    let gone = viewers_report("video-playback-by-id.9", None);
    assert_eq!(react(&gone).evict, Some("9".to_string()));
    let watched = viewers_report("video-playback-by-id.9", Some(12));
    assert_eq!(react(&watched).evict, None);
}
