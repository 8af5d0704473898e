use hotaru::feed::is_screenable_feed;
use hotaru::endpoints::{analyzer_memory_url, analyzer_url, candles_url, order_book_url, price_url};
use hotaru::engine::{buy_permitted, should_consult_ai, watch_list, ExitReason, Portfolio, MAX_POSITIONS};
use hotaru::fng::{fng_label, fng_score, DEFAULT_FNG_SCORE};
use hotaru::market::{accepts, hot_symbols, kline_timestamp, select_ranked, top_pairs, SymbolRule};
use hotaru::news::{alert_for, entry_text, first_hot_keyword, hot_keywords, FeedEntry, SeenIds, SEEN_LIMIT};
use hotaru::number::{parse_i32_chars, parse_i64, parse_i64_chars};
use hotaru::oracle::{btc_status_line, market_snapshot, Ticker};
use hotaru::report::log_entry;
use hotaru::symbol_map::SymbolMap;
use hotaru::text::{contains, ends_with, same_text};

fn strings(v: &[&str]) -> Vec<String> {
    v.iter().map(|s| s.to_string()).collect()
}

#[test]
fn text_contains_and_ends_with() {
    assert!(contains("sec approves etf", "etf"));
    assert!(contains("abc", ""));
    assert!(!contains("ab", "abc"));
    assert!(!contains("fe d", "fed"));
    assert!(ends_with("BTC-USDT", "-USDT"));
    assert!(!ends_with("BTC-USD", "-USDT"));
    assert!(ends_with("", ""));
    assert!(same_text("BUY", "BUY"));
    assert!(!same_text("BUY", "BUYS"));
    assert!(!same_text("buy", "BUY"));
}

#[test]
fn parse_integers_as_std_does() {
    for s in ["0", "42", "-7", "+13", "007", "", "-", "+", "1 ", " 1", "12a", "--1",
              "2147483647", "2147483648", "-2147483648", "-2147483649",
              "9223372036854775807", "9223372036854775808", "-9223372036854775808",
              "-9223372036854775809", "99999999999999999999999"] {
        assert_eq!(parse_i64(s), s.parse::<i64>().ok(), "i64 {:?}", s);
        let cs: Vec<char> = s.chars().collect();
        assert_eq!(parse_i64_chars(&cs), s.parse::<i64>().ok(), "i64 chars {:?}", s);
        assert_eq!(parse_i32_chars(&cs), s.parse::<i32>().ok(), "i32 {:?}", s);
    }
}

#[test]
fn fng_score_reads_first_field() {
    assert_eq!(fng_score(Some("23 (Fear)")), 23);
    assert_eq!(fng_score(Some("81 (Extreme Greed)")), 81);
    assert_eq!(fng_score(Some("-5")), -5);
    assert_eq!(fng_score(Some("abc (Neutral)")), DEFAULT_FNG_SCORE);
    assert_eq!(fng_score(Some("")), 50);
    assert_eq!(fng_score(Some(" 23 (Fear)")), 50);
    assert_eq!(fng_score(Some("99999999999 (Greed)")), 50);
    assert_eq!(fng_score(None), 50);
}

#[test]
fn fng_label_defaults() {
    assert_eq!(fng_label(Some("23"), Some("Fear")), "23 (Fear)");
    assert_eq!(fng_label(None, None), "50 (Neutral)");
    assert_eq!(fng_label(Some("10"), None), "10 (Neutral)");
    assert_eq!(fng_label(None, Some("Greed")), "50 (Greed)");
}

#[test]
fn fng_label_then_score_roundtrip() {
    for (v, c) in [("0", "Extreme Fear"), ("19", "Fear"), ("20", "Fear"), ("100", "Extreme Greed")] {
        let line = fng_label(Some(v), Some(c));
        assert_eq!(fng_score(Some(&line)), v.parse::<i32>().unwrap());
    }
    assert_eq!(fng_score(Some(&fng_label(None, None))), 50);
}

#[test]
fn symbol_map_behaves_as_a_map() {
    let mut m: SymbolMap<u32> = SymbolMap::new();
    assert_eq!(m.len(), 0);
    m.insert("ETH-USDT".to_string(), 1);
    m.insert("BTC-USDT".to_string(), 2);
    m.insert("ETH-USDT".to_string(), 3);
    assert_eq!(m.len(), 2);
    assert_eq!(m.get("ETH-USDT"), Some(&3));
    assert!(m.contains_key("BTC-USDT"));
    assert!(!m.contains_key("SOL-USDT"));
    let keys: Vec<&str> = m.pairs().iter().map(|(k, _)| k.as_str()).collect();
    assert_eq!(keys, vec!["ETH-USDT", "BTC-USDT"]);
    assert_eq!(m.remove("ETH-USDT"), Some(3));
    assert_eq!(m.remove("ETH-USDT"), None);
    assert_eq!(m.len(), 1);
    assert_eq!(m.get("ETH-USDT"), None);
}

#[test]
fn portfolio_open_close() {
    let mut p: Portfolio<f64> = Portfolio::new();
    p.open_position("SOL-USDT", 2.5, 140.0);
    assert_eq!(p.position_count(), 1);
    assert_eq!(p.entry_prices.get("SOL-USDT"), Some(&140.0));
    assert_eq!(p.highest_prices.get("SOL-USDT"), Some(&140.0));
    p.record_peak("SOL-USDT", 150.0);
    assert_eq!(p.highest_prices.get("SOL-USDT"), Some(&150.0));
    assert_eq!(p.held_symbols(), strings(&["SOL-USDT"]));
    assert_eq!(p.close_position("SOL-USDT"), Some(2.5));
    assert_eq!(p.position_count(), 0);
    assert_eq!(p.entry_prices.get("SOL-USDT"), None);
    assert_eq!(p.highest_prices.get("SOL-USDT"), None);
    assert_eq!(p.close_position("SOL-USDT"), None);
}

#[test]
fn open_then_close_restores_the_book() {
    let mut p: Portfolio<f64> = Portfolio::new();
    p.open_position("BTC-USDT", 0.1, 60000.0);
    p.open_position("ETH-USDT", 1.0, 3000.0);
    assert_eq!(p.close_position("ETH-USDT"), Some(1.0));
    assert_eq!(p.held_symbols(), strings(&["BTC-USDT"]));
    assert_eq!(p.entry_prices.len(), 1);
    assert_eq!(p.highest_prices.len(), 1);
}

#[test]
fn settle_exit_reasons() {
    let mut p: Portfolio<f64> = Portfolio::new();
    p.open_position("A-USDT", 1.0, 1.0);
    p.open_position("B-USDT", 2.0, 1.0);
    assert_eq!(p.settle_exit("A-USDT", false, false), None);
    assert_eq!(p.position_count(), 2);
    assert_eq!(p.settle_exit("A-USDT", true, true), Some((ExitReason::ProfitLocked, 1.0)));
    assert_eq!(p.settle_exit("B-USDT", false, true), Some((ExitReason::StopLoss, 2.0)));
    assert_eq!(p.settle_exit("C-USDT", true, false), None);
    assert_eq!(p.position_count(), 0);
}

#[test]
fn sentiment_gate_and_ai_consultation() {
    assert!(!should_consult_ai(false, 19, true));
    assert!(should_consult_ai(false, 20, false));
    assert!(should_consult_ai(true, 5, true));
    assert!(!should_consult_ai(true, 80, false));
}

#[test]
fn buy_gate_keeps_position_limit() {
    assert_eq!(MAX_POSITIONS, 6);
    assert!(buy_permitted("BUY", false, 5, true));
    assert!(!buy_permitted("BUY", false, 6, true));
    assert!(!buy_permitted("BUY", true, 0, true));
    assert!(!buy_permitted("HOLD", false, 0, true));
    assert!(!buy_permitted("buy", false, 0, true));
    assert!(!buy_permitted("BUY", false, 0, false));
    let mut p: Portfolio<f64> = Portfolio::new();
    let symbols = ["A", "B", "C", "D", "E", "F", "G", "H"];
    for s in symbols {
        if buy_permitted("BUY", p.entry_prices.contains_key(s), p.position_count(), true) {
            p.open_position(s, 1.0, 1.0);
        }
        assert!(p.position_count() <= MAX_POSITIONS);
    }
    assert_eq!(p.position_count(), 6);
}

#[test]
fn watch_list_merges_without_repeats() {
    let w = watch_list(strings(&["SOL-USDT", "ETH-USDT"]), strings(&["BTC-USDT", "ETH-USDT", "PEPE-USDT", "BTC-USDT"]));
    assert_eq!(w, strings(&["SOL-USDT", "ETH-USDT", "BTC-USDT", "PEPE-USDT"]));
    assert_eq!(watch_list(vec![], vec![]), Vec::<String>::new());
}

#[test]
fn symbol_rules() {
    assert!(accepts(SymbolRule::KucoinSpotUsdtPair, "BTC-USDT"));
    assert!(!accepts(SymbolRule::KucoinSpotUsdtPair, "BTCUSDT"));
    assert!(!accepts(SymbolRule::KucoinSpotUsdtPair, "ETH3L-USDT"));
    assert!(!accepts(SymbolRule::KucoinSpotUsdtPair, "BTC3S-USDT"));
    assert!(accepts(SymbolRule::KucoinSpotUsdtPair, "SOL-USDT"));
    assert!(accepts(SymbolRule::BinanceUsdtPair, "BTCUSDT"));
    assert!(accepts(SymbolRule::BinanceUsdtPair, "BTC-USDT"));
    assert!(!accepts(SymbolRule::BinanceUsdtPair, "ETHBTC"));
    let syms = strings(&["BTC-USDT", "ETH-BTC", "ETH3L-USDT", "SOL-USDT", "PEPE-USDT"]);
    let eligible = vec![true, true, true, true, false];
    let ranking = vec![3, 2, 1, 0, 4, 9];
    assert_eq!(select_ranked(SymbolRule::KucoinSpotUsdtPair, &syms, &eligible, &ranking), strings(&["SOL-USDT", "BTC-USDT"]));
    let hot = hot_symbols(select_ranked(SymbolRule::KucoinSpotUsdtPair, &syms, &eligible, &ranking));
    assert!(hot.iter().all(|s| accepts(SymbolRule::KucoinSpotUsdtPair, s)));
    let none = hot_symbols(select_ranked(SymbolRule::KucoinSpotUsdtPair, &syms, &vec![false; 5], &ranking));
    assert!(none.iter().all(|s| accepts(SymbolRule::KucoinSpotUsdtPair, s)));
}

#[test]
fn top_and_hot_symbol_selection() {
    assert_eq!(top_pairs(None, 12), strings(&["BTC-USDT"]));
    assert_eq!(top_pairs(Some(vec![]), 12), Vec::<String>::new());
    assert_eq!(top_pairs(Some(strings(&["A", "B", "C"])), 2), strings(&["A", "B"]));
    assert_eq!(hot_symbols(vec![]), strings(&["BTC-USDT", "ETH-USDT", "SOL-USDT"]));
    let many: Vec<String> = (0..25).map(|i| format!("C{}-USDT", i)).collect();
    let hot = hot_symbols(many.clone());
    assert_eq!(hot.len(), 20);
    assert_eq!(hot[..], many[..20]);
}

#[test]
fn kline_timestamps() {
    assert_eq!(kline_timestamp(Some("1713657600")), 1713657600);
    assert_eq!(kline_timestamp(Some("x")), 0);
    assert_eq!(kline_timestamp(None), 0);
}

#[test]
fn oracle_snapshot() {
    let t = |s: &str, p: &str, v: &str| Ticker { symbol: s.to_string(), price: p.to_string(), volume: v.to_string() };
    let snap = market_snapshot(&vec![
        t("ETHBTC", "0.05", "10"),
        t("BTCUSDT", "60000", "100"),
        t("SOLUSDT", "140", "5"),
        t("BTCUSDT", "61000", "120"),
    ]);
    assert_eq!(snap.quotes.len(), 2);
    assert_eq!(snap.quotes.get("BTCUSDT").unwrap().price, "61000");
    assert_eq!(snap.quotes.get("SOLUSDT").unwrap().volume, "5");
    assert!(snap.quotes.get("ETHBTC").is_none());
    assert_eq!(snap.btc_status, "$61000 | Vol: 120");
    let empty = market_snapshot(&vec![]);
    assert_eq!(empty.btc_status, "Unknown");
    assert_eq!(empty.quotes.len(), 0);
    assert_eq!(btc_status_line("1", "2"), "$1 | Vol: 2");
}

#[test]
fn news_keywords() {
    assert_eq!(hot_keywords().len(), 12);
    assert_eq!(first_hot_keyword("the fed holds rates"), Some(0));
    assert_eq!(first_hot_keyword("exchange hack drains funds"), Some(8));
    assert_eq!(first_hot_keyword("quiet day"), None);
    let a = alert_for("SEC Approved", "sec approved").unwrap();
    assert_eq!(a.title, "SEC Approved");
    assert_eq!(a.keyword, "sec");
    assert!(alert_for("Calm", "calm").is_none());
    assert_eq!(entry_text("Fed Raises", "CPI Up"), "fed raises cpi up");
}

#[test]
fn news_entries_alert_once() {
    let mut seen = SeenIds::new();
    let first = seen.screen("id-1", "ETF APPROVED", "");
    assert_eq!(first.unwrap().keyword, "etf");
    assert!(seen.screen("id-1", "ETF APPROVED", "").is_none());
    assert!(seen.screen("id-2", "Weather", "sunny").is_none());
    assert_eq!(seen.len(), 2);
    assert!(seen.contains("id-2"));
}

#[test]
fn news_memory_is_bounded() {
    let mut seen = SeenIds::new();
    for i in 0..SEEN_LIMIT {
        seen.insert(&format!("id-{}", i));
    }
    seen.end_round();
    assert_eq!(seen.len(), SEEN_LIMIT);
    seen.insert("one-more");
    seen.end_round();
    assert_eq!(seen.len(), 0);
}

#[test]
fn log_lines_and_urls() {
    assert_eq!(log_entry("2026-04-21 01:55:00", "hi"), "[2026-04-21 01:55:00] hi\n");
    assert_eq!(analyzer_url("BTC-USDT"), "http://127.0.0.1:3497/analyze/BTC-USDT");
    assert_eq!(analyzer_memory_url("BTC-USDT"), "http://127.0.0.1:3497/update_ai_memory/BTC-USDT");
    assert_eq!(price_url("X"), "https://api.kucoin.com/api/v1/market/orderbook/level1?symbol=X");
    assert_eq!(order_book_url("X"), "https://api.kucoin.com/api/v1/market/orderbook/level2_20?symbol=X");
    assert_eq!(candles_url("X"), "https://api.kucoin.com/api/v1/market/candles?type=15min&symbol=X");
}

#[test]
fn top_pairs_exclude_leveraged_tokens() {
    let syms = strings(&["BTC3L-USDT", "ETH-USDT", "ETH3S-USDT", "XRP-BTC", "ADA-USDT"]);
    let eligible = vec![true; 5];
    let ranking = vec![0, 1, 2, 3, 4];
    let top = top_pairs(Some(select_ranked(SymbolRule::KucoinSpotUsdtPair, &syms, &eligible, &ranking)), 12);
    assert_eq!(top, strings(&["ETH-USDT", "ADA-USDT"]));
    assert!(top_pairs(None, 12).iter().all(|s| accepts(SymbolRule::KucoinSpotUsdtPair, s)));
}

#[test]
fn news_feed_entries_in_order() {
    let e = |id: &str, t: Option<&str>, s: Option<&str>| FeedEntry {
        id: id.to_string(),
        title: t.map(|x| x.to_string()),
        summary: s.map(|x| x.to_string()),
    };
    let mut seen = SeenIds::new();
    let alerts = seen.screen_entries(&vec![
        e("a", Some("Bitcoin ETF approved"), None),
        e("b", None, Some("New CPI print")),
        e("a", Some("Fed cuts"), None),
        e("c", Some("Sunny"), Some("nothing")),
        e("d", Some("Exchange HACK"), Some("")),
    ]);
    let got: Vec<(String, String)> = alerts.into_iter().map(|a| (a.title, a.keyword)).collect();
    assert_eq!(got, vec![
        ("Bitcoin ETF approved".to_string(), "etf".to_string()),
        ("".to_string(), "cpi".to_string()),
        ("Exchange HACK".to_string(), "hack".to_string()),
    ]);
    assert_eq!(seen.len(), 4);
}

#[test]
fn news_feed_bytes() {
    let rss = r#"<?xml version="1.0"?>
<rss version="2.0"><channel><title>News</title><link>https://example.com/</link><description>d</description>
<item><guid>n-1</guid><title>Fed holds</title><link>https://example.com/1</link><description>Rates unchanged</description></item>
<item><guid>n-2</guid><title>Quiet markets</title><link>https://example.com/2</link><description>Nothing new</description></item>
</channel></rss>"#;
    let mut seen = SeenIds::new();
    let alerts = seen.screen_feed(rss.as_bytes());
    assert_eq!(alerts.len(), 1);
    assert_eq!(alerts[0].title, "Fed holds");
    assert_eq!(alerts[0].keyword, "fed");
    assert!(seen.contains("n-1") && seen.contains("n-2"));
    assert!(seen.screen_feed(rss.as_bytes()).is_empty());
    let mut fresh = SeenIds::new();
    assert!(fresh.screen_feed(b"not a feed").is_empty());
    assert_eq!(fresh.len(), 0);
}

#[test]
fn feeds_with_unparseable_play_times_are_refused() {
    let media = r#"<?xml version="1.0"?>
<rss version="2.0" xmlns:media="http://search.yahoo.com/mrss/"><channel><title>N</title><link>https://e.com/</link><description>d</description>
<item><guid>m-1</guid><title>Fed meets</title><link>https://e.com/1</link>
<media:thumbnail url="https://e.com/t.jpg" time="99999999999999999999999"/></item>
</channel></rss>"#;
    assert!(!is_screenable_feed(media.as_bytes()));
    let mut seen = SeenIds::new();
    assert!(seen.screen_feed(media.as_bytes()).is_empty());
    assert_eq!(seen.len(), 0);

    let podcast = r#"<rss version="2.0" xmlns:itunes="http://www.itunes.com/dtds/podcast-1.0.dtd"><channel><title>P</title>
<item><guid>p-1</guid><title>Rate talk</title><itunes:duration>99999999999999999999999</itunes:duration></item></channel></rss>"#;
    assert!(!is_screenable_feed(podcast.as_bytes()));
    assert!(seen.screen_feed(podcast.as_bytes()).is_empty());

    assert!(!is_screenable_feed(b"<a time =\"1\"/>"));
    assert!(!is_screenable_feed(b"<a start\n=\"1\"/>"));
    assert!(!is_screenable_feed(b"<\x00r\x00s\x00s\x00"));
    assert!(!is_screenable_feed(b"ab\x1b(Bcd"));
    assert!(is_screenable_feed(b"<p>the end of the weekend; a long duration</p>"));
    assert!(is_screenable_feed("<title>ข่าว fed</title>".as_bytes()));
}

#[test]
fn person_texts_that_could_break_the_parser_are_refused() {
    let editor = "<rss version=\"2.0\"><channel><managingEditor>Jean Dupont \u{ab}jean@exemple.fr\u{bb}</managingEditor></channel></rss>";
    assert!(!is_screenable_feed(editor.as_bytes()));
    let mut seen = SeenIds::new();
    assert!(seen.screen_feed(editor.as_bytes()).is_empty());
    assert_eq!(seen.len(), 0);
    let by_ref = "<rss version=\"2.0\"><channel><managingEditor>Jean &#171;jean@exemple.fr&#187;</managingEditor></channel></rss>";
    assert!(!is_screenable_feed(by_ref.as_bytes()));
    let in_cdata = "<rss><channel><item><dc:creator><![CDATA[\u{ab}jean@exemple.fr]]></dc:creator></item></channel></rss>";
    assert!(!is_screenable_feed(in_cdata.as_bytes()));
    let json = "{\"version\":\"https://jsonfeed.org/version/1\",\"authors\":[{\"name\":\"\\u00abjean@exemple.fr\"}]}";
    assert!(!is_screenable_feed(json.as_bytes()));
    assert!(!is_screenable_feed(b"<!DOCTYPE rss><rss/>"));
    assert!(!is_screenable_feed(b"<rss><!-->x--></rss>"));
    let latin1 = b"<?xml version=\"1.0\" encoding=\"ISO-8859-1\"?><rss><title>caf\xe9</title></rss>";
    assert!(!is_screenable_feed(latin1));
}

#[test]
fn ordinary_feeds_are_screened() {
    let feed = "<?xml version=\"1.0\" encoding=\"UTF-8\"?>\n<rss version=\"2.0\" xmlns:dc=\"http://purl.org/dc/elements/1.1/\"><channel><title>News</title>\n<!-- generated -->\n<item><guid>w-1</guid><title>Fed\u{2019}s rate call</title><link>https://e.com/a?end=1&amp;x=2</link>\n<dc:creator><![CDATA[Jane Doe]]></dc:creator><author>noreply@e.com (Bob)</author>\n<description>&lt;p&gt;S&amp;P falls&lt;/p&gt;</description></item></channel></rss>";
    assert!(is_screenable_feed(feed.as_bytes()));
    let mut seen = SeenIds::new();
    let alerts = seen.screen_feed(feed.as_bytes());
    assert_eq!(alerts.len(), 1);
    assert_eq!(alerts[0].keyword, "fed");
    assert!(seen.contains("w-1"));
}
