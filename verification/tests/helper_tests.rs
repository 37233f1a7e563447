use deet::par::assemble_results;
use deet::proxy::{alive_upstreams, choose_upstream, error_status, RequestError};
use deet::textstats::count_words;

#[test]
fn error_statuses_exact() {
    assert_eq!(error_status(RequestError::IncompleteRequest(12)), 400);
    assert_eq!(error_status(RequestError::MalformedRequest), 400);
    assert_eq!(error_status(RequestError::InvalidContentLength), 400);
    assert_eq!(error_status(RequestError::ContentLengthMismatch), 400);
    assert_eq!(error_status(RequestError::RequestBodyTooLarge), 413);
    assert_eq!(error_status(RequestError::ConnectionError), 503);
}

#[test]
fn alive_upstreams_filters_dead() {
    assert_eq!(alive_upstreams(&vec![false, true, false, true, false]), vec![0, 2, 4]);
    assert_eq!(alive_upstreams(&vec![true, true]), Vec::<usize>::new());
    assert_eq!(alive_upstreams(&vec![]), Vec::<usize>::new());
}

#[test]
fn choose_upstream_wraps_draw() {
    let dead = vec![true, false, false];
    assert_eq!(choose_upstream(&dead, 0), Some(1));
    assert_eq!(choose_upstream(&dead, 1), Some(2));
    assert_eq!(choose_upstream(&dead, 2), Some(1));
    assert_eq!(choose_upstream(&vec![true, true], 5), None);
}

#[test]
fn assemble_results_any_order() {
    let pairs = vec![(2usize, 30i64), (0, 10), (1, 20)];
    assert_eq!(assemble_results(4, 0i64, &pairs), vec![10, 20, 30, 0]);
    let empty: Vec<(usize, i64)> = vec![];
    assert_eq!(assemble_results(2, 7i64, &empty), vec![7, 7]);
}

#[test]
fn count_words_exact() {
    assert_eq!(count_words(&b"two words".to_vec()), 2);
    assert_eq!(count_words(&b"  leading and   trailing  ".to_vec()), 3);
    assert_eq!(count_words(&b"".to_vec()), 0);
    assert_eq!(count_words(&b"   ".to_vec()), 0);
    assert_eq!(count_words(&b"one".to_vec()), 1);
    assert_eq!(count_words(&b"a\tb\nc\rd".to_vec()), 4);
}
