use grace_index::engine::{default_indexer, CrawlRun, Indexer, Link};
use grace_index::matcher::{get_distance, is_good_link, levenshtein, route, Query};

fn chars(s: &str) -> Vec<char> {
    s.chars().collect()
}

fn indexed_link(id: u64, url: &str, text: &str) -> Link {
    Link { id, url: String::from(url), text: Some(String::from(text)) }
}

#[test]
fn levenshtein_kitten_sitting() {
    assert_eq!(levenshtein(&chars("kitten"), &chars("sitting")), 3);
}

#[test]
fn levenshtein_self_is_zero() {
    assert_eq!(levenshtein(&chars("abcdef"), &chars("abcdef")), 0);
    assert_eq!(levenshtein(&chars(""), &chars("")), 0);
}

#[test]
fn levenshtein_is_symmetric() {
    let a = chars("flaw");
    let b = chars("lawn");
    assert_eq!(levenshtein(&a, &b), levenshtein(&b, &a));
    assert_eq!(levenshtein(&chars("kitten"), &chars("sitting")),
        levenshtein(&chars("sitting"), &chars("kitten")));
}

#[test]
fn levenshtein_against_empty() {
    assert_eq!(levenshtein(&chars("abc"), &chars("")), 3);
    assert_eq!(levenshtein(&chars(""), &chars("abc")), 3);
}

#[test]
fn window_distance_exact_containment() {
    assert_eq!(get_distance(&chars("api"), &chars("the api reference")), 0);
}

#[test]
fn window_distance_line_shorter_than_query() {
    assert_eq!(get_distance(&chars("abcdef"), &chars("ab")), 6);
}

#[test]
fn window_distance_closest_window() {
    // windows of width 3 in "xapy": best is "apy" or "xap" at distance 1
    assert_eq!(get_distance(&chars("apy"), &chars("xapq")), 1);
}

#[test]
fn matcher_query_in_line_matches() {
    let link = indexed_link(1, "u", "the api reference");
    assert!(is_good_link("api", &link));
}

#[test]
fn matcher_distant_query_does_not_match() {
    let link = indexed_link(1, "u", "the api reference");
    assert!(!is_good_link("zzz", &link));
}

#[test]
fn matcher_score_boundary_is_strict() {
    // distance 1 on a four-character query scores exactly 0.25: not a match
    assert!(!is_good_link("abcd", &indexed_link(1, "u", "abxd")));
    // distance 0 scores 0.0: a match
    assert!(is_good_link("abcd", &indexed_link(1, "u", "abcd")));
}

#[test]
fn matcher_link_without_text_never_matches() {
    let link = Link { id: 1, url: String::from("u"), text: None };
    assert!(!is_good_link("api", &link));
}

#[test]
fn matcher_checks_each_line() {
    let link = indexed_link(1, "u", "nothing here\n   api   \nother");
    assert!(is_good_link("api", &link));
}

#[test]
fn route_filters_and_strips_text() {
    let links = vec![
        indexed_link(1, "https://one", "the api reference"),
        indexed_link(2, "https://two", "completely unrelated words"),
    ];
    let query = Query::new(String::from("api"));
    let result = route(&query, &links);
    assert_eq!(result.len(), 1);
    assert_eq!(result[0].id, 1);
    assert_eq!(result[0].url, "https://one");
    assert_eq!(result[0].text, None);
}

#[test]
fn route_normalizes_query_after_last_dot() {
    let links = vec![indexed_link(1, "u", "the api reference")];
    let query = Query::new(String::from("  nvim.buf.api  "));
    let result = route(&query, &links);
    assert_eq!(result.len(), 1);
}

#[test]
fn route_empty_query_matches_nothing() {
    let links = vec![indexed_link(1, "u", "anything at all")];
    assert_eq!(route(&Query::new(String::from("")), &links).len(), 0);
    // a query ending in '.' normalizes to the empty string
    assert_eq!(route(&Query::new(String::from("a.")), &links).len(), 0);
}

#[test]
fn route_is_idempotent() {
    let links = vec![
        indexed_link(1, "https://one", "the api reference"),
        indexed_link(2, "https://two", "other text"),
    ];
    let query = Query::new(String::from("api"));
    let first = route(&query, &links);
    let second = route(&query, &links);
    assert_eq!(first, second);
}

#[test]
fn default_indexer_has_one_seed_link() {
    let indexer = default_indexer(3, 7);
    assert_eq!(indexer.id, 3);
    assert_eq!(indexer.url_queue.len(), 1);
    assert_eq!(indexer.url_queue[0].id, 7);
    assert_eq!(indexer.url_queue[0].url, "https://neovim.io/doc/user/api.html#api");
    assert_eq!(indexer.url_queue[0].text, None);
}

#[test]
fn crawl_run_bootstrap_drains_and_indexes() {
    // bootstrapped state: exactly one indexer with exactly one seed link
    let indexer = default_indexer(1, 7);
    let mut run = CrawlRun::start(vec![indexer]);
    // the seed link is popped and its URL fetched
    let url = run.next_action().expect("one link is queued");
    assert_eq!(url, "https://neovim.io/doc/user/api.html#api");
    // the fetched body is extracted and handed back for persisting
    let (link_id, text) = run.finish_fetch("<html><body>api docs</body></html>");
    assert_eq!(link_id, 7);
    assert_eq!(text, "api docs");
    // on success the backlog is empty and the link is indexed
    assert_eq!(run.next_action(), None);
    assert!(run.indexer.url_queue.is_empty());
    assert_eq!(run.completed.len(), 1);
    assert_eq!(run.completed[0].id, 7);
    assert_eq!(run.completed[0].text, Some(String::from("api docs")));
}

#[test]
fn crawl_run_pops_in_stack_order() {
    let indexer = Indexer {
        id: 1,
        url_queue: vec![
            Link { id: 1, url: String::from("first"), text: None },
            Link { id: 2, url: String::from("second"), text: None },
        ],
    };
    let mut run = CrawlRun::start(vec![indexer]);
    assert_eq!(run.next_action(), Some(String::from("second")));
    let _ = run.finish_fetch("b");
    assert_eq!(run.next_action(), Some(String::from("first")));
    let _ = run.finish_fetch("a");
    assert_eq!(run.next_action(), None);
    assert_eq!(run.completed.len(), 2);
}
