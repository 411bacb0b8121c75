use gitlab_tokens_exporter::pagination::{is_success_status, FetchError, PageResponse, Paginated};

const PAGE2: &str = "https://git.example.com/api/v4/projects?page=2";
const PAGE3: &str = "https://git.example.com/api/v4/projects?page=3";

fn next_header(url: &str) -> Option<String> {
    Some(format!("<{url}>; rel=\"next\""))
}

fn ok_page(items: Vec<u32>, link: Option<String>) -> PageResponse<u32> {
    PageResponse { status: 200, link, items: Some(items) }
}

#[test]
fn a_fresh_retrieval_asks_for_its_start() {
    let pager: Paginated<u32> = Paginated::start(String::from("https://git.example.com/a"));
    assert_eq!(pager.pending_url(), Some(String::from("https://git.example.com/a")));
}

#[test]
fn pages_are_followed_and_concatenated_in_order() {
    let pager: Paginated<u32> = Paginated::start(String::from("https://git.example.com/api/v4/projects"));
    let pager = pager.on_page(ok_page(vec![1], next_header(PAGE2))).unwrap();
    assert_eq!(pager.pending_url(), Some(String::from(PAGE2)));
    let pager = pager.on_page(ok_page(vec![2], next_header(PAGE3))).unwrap();
    assert_eq!(pager.pending_url(), Some(String::from(PAGE3)));
    let pager = pager.on_page(ok_page(vec![3], None)).unwrap();
    assert_eq!(pager.pending_url(), None);
    assert_eq!(pager.into_items(), vec![1, 2, 3]);
}

#[test]
fn a_single_page_without_link_gives_its_items() {
    let pager: Paginated<u32> = Paginated::start(String::from(PAGE2));
    let pager = pager.on_page(ok_page(vec![7, 8, 9], None)).unwrap();
    assert_eq!(pager.pending_url(), None);
    assert_eq!(pager.into_items(), vec![7, 8, 9]);
}

#[test]
fn only_the_next_relation_is_followed() {
    let header = format!("<{PAGE2}>; rel=\"prev\", <{PAGE3}>; rel=\"last\"");
    let pager: Paginated<u32> = Paginated::start(String::from(PAGE2));
    let pager = pager.on_page(ok_page(vec![4], Some(header))).unwrap();
    assert_eq!(pager.pending_url(), None);

    let header = format!("<{PAGE3}>; rel=\"last\", <{PAGE2}>; rel=\"next\"");
    let pager: Paginated<u32> = Paginated::start(String::from(PAGE2));
    let pager = pager.on_page(ok_page(vec![4], Some(header))).unwrap();
    assert_eq!(pager.pending_url(), Some(String::from(PAGE2)));
}

#[test]
fn a_malformed_link_header_ends_the_listing() {
    let pager: Paginated<u32> = Paginated::start(String::from(PAGE2));
    let pager = pager.on_page(ok_page(vec![5], Some(String::from("")))).unwrap();
    assert_eq!(pager.pending_url(), None);
    assert_eq!(pager.into_items(), vec![5]);
}

#[test]
fn a_failed_first_page_aborts() {
    let pager: Paginated<u32> = Paginated::start(String::from(PAGE2));
    let page = PageResponse { status: 500, link: next_header(PAGE3), items: Some(vec![1]) };
    assert_eq!(pager.on_page(page).err(), Some(FetchError::Status(500)));
}

#[test]
fn a_failed_later_page_aborts_without_partial_items() {
    let pager: Paginated<u32> = Paginated::start(String::from(PAGE2));
    let pager = pager.on_page(ok_page(vec![1], next_header(PAGE3))).unwrap();
    let page = PageResponse { status: 404, link: None, items: None };
    assert_eq!(pager.on_page(page).err(), Some(FetchError::Status(404)));
}

#[test]
fn statuses_outside_2xx_are_failures() {
    for status in [100u16, 199, 301, 304, 401, 403, 502] {
        let pager: Paginated<u32> = Paginated::start(String::from(PAGE2));
        let page = PageResponse { status, link: None, items: Some(vec![1]) };
        assert_eq!(pager.on_page(page).err(), Some(FetchError::Status(status)));
    }
    for status in [200u16, 204, 299] {
        let pager: Paginated<u32> = Paginated::start(String::from(PAGE2));
        let page = PageResponse { status, link: None, items: Some(vec![1]) };
        assert!(pager.on_page(page).is_ok());
    }
}

#[test]
fn an_undecodable_body_aborts() {
    let pager: Paginated<u32> = Paginated::start(String::from(PAGE2));
    let page = PageResponse { status: 200, link: next_header(PAGE3), items: None };
    assert_eq!(pager.on_page(page).err(), Some(FetchError::Body));
}

#[test]
fn success_is_the_2xx_range() {
    assert!(!is_success_status(199));
    assert!(is_success_status(200));
    assert!(is_success_status(299));
    assert!(!is_success_status(300));
    assert!(!is_success_status(500));
}
