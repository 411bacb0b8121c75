//! Retrieval of a complete listing from a paged endpoint: each response carries
//! one page of items and, in its `link` header, the address of the next page.
//!
//! The protocol is kept as a state machine: the caller performs each request
//! and hands the response to [`Paginated::on_page`], which decides what comes
//! next.

use vstd::prelude::*;

verus! {

/// What the `link` header `header` gives as the address of the relation `rel`,
/// as parsed by `parse_link_header::parse_with_rel`.
pub uninterp spec fn link_of(header: Seq<char>, rel: Seq<char>) -> Option<Seq<char>>;

/// The address of the `next` relation in the `link` header `header`.
pub open spec fn next_link_of(header: Seq<char>) -> Option<Seq<char>> {
    link_of(header, "next"@)
}

/// Relies on `parse_link_header::parse_with_rel`: the header is parsed into a
/// map from relation to link, and the raw URI under `rel` is handed back; a
/// header that does not parse has no link. The result depends on the header
/// text and the relation alone.
#[verifier::external_body]
fn link_for_rel(header: &str, rel: &str) -> (r: Option<String>)
    ensures
        text_of(r) == link_of(header@, rel@),
{
    parse_link_header::parse_with_rel(header).ok().and_then(
        |links| links.get(rel).map(|link| link.raw_uri.clone()),
    )
}

/// The text of an optional string.
pub open spec fn text_of(s: Option<String>) -> Option<Seq<char>> {
    match s {
        Some(t) => Some(t@),
        None => None,
    }
}

/// Why a paged retrieval was abandoned.
#[derive(Clone, Copy, Debug, PartialEq, Eq, Structural)]
pub enum FetchError {
    /// The request could not be carried out.
    Transport,
    /// The server answered with this status, outside the 2xx range.
    Status(u16),
    /// The body of a page was not a list of items.
    Body,
}

/// One response of a paged endpoint, as the caller received it.
pub struct PageResponse<T> {
    /// The HTTP status code.
    pub status: u16,
    /// The `link` header, if the response has one that is text.
    pub link: Option<String>,
    /// The items of the body, or `None` where the body did not decode.
    pub items: Option<Vec<T>>,
}

/// A response, as mathematical values.
pub struct PageModel<T> {
    pub status: u16,
    pub link: Option<Seq<char>>,
    pub items: Option<Seq<T>>,
}

impl<T> PageResponse<T> {
    pub open spec fn model(&self) -> PageModel<T> {
        PageModel {
            status: self.status,
            link: text_of(self.link),
            items: match self.items {
                Some(v) => Some(v@),
                None => None,
            },
        }
    }
}

/// A status that counts as success.
pub open spec fn is_success(status: u16) -> bool {
    200 <= status < 300
}

/// Whether `status` counts as success.
pub fn is_success_status(status: u16) -> (r: bool)
    ensures
        r == is_success(status),
{
    200 <= status && status < 300
}

/// The address of the page after `page`, if any.
pub open spec fn cursor_after<T>(page: PageModel<T>) -> Option<Seq<char>> {
    match page.link {
        Some(h) => next_link_of(h),
        None => None,
    }
}

/// The items gathered so far and the address still to be fetched.
pub struct PagerState<T> {
    pub items: Seq<T>,
    pub cursor: Option<Seq<char>>,
}

/// What receiving `page` does to the state `s`: a failed status or an
/// undecodable body abandons the retrieval; otherwise the page's items are
/// appended and the cursor moves to the page's next link.
pub open spec fn page_step<T>(s: PagerState<T>, page: PageModel<T>) -> Result<PagerState<T>, FetchError> {
    if !is_success(page.status) {
        Err(FetchError::Status(page.status))
    } else {
        match page.items {
            None => Err(FetchError::Body),
            Some(items) => Ok(PagerState { items: s.items + items, cursor: cursor_after(page) }),
        }
    }
}

/// The outcome of handing `pages` in turn to the state `s`, until the cursor
/// runs out, a page fails, or the pages do.
pub open spec fn drive<T>(s: PagerState<T>, pages: Seq<PageModel<T>>) -> Result<PagerState<T>, FetchError>
    decreases pages.len(),
{
    if pages.len() == 0 || s.cursor is None {
        Ok(s)
    } else {
        match page_step(s, pages[0]) {
            Err(e) => Err(e),
            Ok(next) => drive(next, pages.drop_first()),
        }
    }
}

/// The items of `pages`, one page after the other; a page without items adds
/// none.
pub open spec fn all_items<T>(pages: Seq<PageModel<T>>) -> Seq<T>
    decreases pages.len(),
{
    if pages.len() == 0 {
        Seq::empty()
    } else {
        match pages[0].items {
            Some(items) => items + all_items(pages.drop_first()),
            None => all_items(pages.drop_first()),
        }
    }
}

/// A page that succeeds, and that leads on to a further page exactly where
/// `leads_on` says.
pub open spec fn good_page<T>(page: PageModel<T>, leads_on: bool) -> bool {
    &&& is_success(page.status)
    &&& page.items is Some
    &&& (cursor_after(page) is Some) == leads_on
}

/// A paged retrieval in progress.
#[verifier::reject_recursive_types(T)]
pub struct Paginated<T> {
    items: Vec<T>,
    next_url: Option<String>,
}

impl<T> Paginated<T> {
    pub closed spec fn state(&self) -> PagerState<T> {
        PagerState { items: self.items@, cursor: text_of(self.next_url) }
    }

    /// A retrieval that starts at `url`, with nothing gathered yet.
    pub fn start(url: String) -> (r: Paginated<T>)
        ensures
            r.state() == (PagerState::<T> { items: Seq::empty(), cursor: Some(url@) }),
    {
        Paginated { items: Vec::new(), next_url: Some(url) }
    }

    /// The address to fetch next, or `None` once the listing is complete.
    pub fn pending_url(&self) -> (r: Option<String>)
        ensures
            text_of(r) == self.state().cursor,
    {
        match &self.next_url {
            Some(url) => Some(url.clone()),
            None => None,
        }
    }

    /// Takes in the response to the request for the pending address.
    pub fn on_page(self, page: PageResponse<T>) -> (r: Result<Paginated<T>, FetchError>)
        requires
            self.state().cursor is Some,
        ensures
            match page_step(self.state(), page.model()) {
                Ok(s) => r matches Ok(p) && p.state() == s,
                Err(e) => r == Err::<Paginated<T>, FetchError>(e),
            },
    {
        if !is_success_status(page.status) {
            return Err(FetchError::Status(page.status));
        }
        let next_url = match &page.link {
            Some(header) => link_for_rel(header.as_str(), "next"),
            None => None,
        };
        match page.items {
            None => Err(FetchError::Body),
            Some(page_items) => {
                let mut items = self.items;
                let mut page_items = page_items;
                items.append(&mut page_items);
                Ok(Paginated { items, next_url })
            },
        }
    }

    /// The items gathered so far, in the order they were received.
    pub fn into_items(self) -> (r: Vec<T>)
        ensures
            r@ == self.state().items,
    {
        self.items
    }
}

/// Following a chain of good pages, where every page but the last leads on,
/// gathers exactly the items of all pages in order and ends the retrieval.
pub proof fn lemma_pages_concatenate<T>(items: Seq<T>, url: Seq<char>, pages: Seq<PageModel<T>>)
    requires
        pages.len() > 0,
        forall|i: int| 0 <= i < pages.len() ==> good_page(#[trigger] pages[i], i < pages.len() - 1),
    ensures
        drive(PagerState { items, cursor: Some(url) }, pages)
            == Ok::<PagerState<T>, FetchError>(PagerState { items: items + all_items(pages), cursor: None }),
    decreases pages.len(),
{
    assert(good_page(pages[0], 0 < pages.len() - 1));
    let page = pages[0];
    let next = PagerState { items: items + page.items->Some_0, cursor: cursor_after(page) };
    assert(page_step(PagerState { items, cursor: Some(url) }, page) == Ok::<PagerState<T>, FetchError>(next));
    let rest = pages.drop_first();
    if pages.len() == 1 {
        assert(rest.len() == 0);
        assert(all_items(rest) == Seq::<T>::empty());
        assert(items + all_items(pages) =~= next.items);
        assert(drive(next, rest) == Ok::<PagerState<T>, FetchError>(next));
    } else {
        assert forall|i: int| 0 <= i < rest.len() implies good_page(#[trigger] rest[i], i < rest.len() - 1) by {
            assert(rest[i] == pages[i + 1]);
            assert(good_page(pages[i + 1], i + 1 < pages.len() - 1));
        }
        lemma_pages_concatenate(next.items, next.cursor->Some_0, rest);
        assert(next.items + all_items(rest) =~= items + all_items(pages));
    }
}

/// A page with a status outside the 2xx range, reached after good pages that
/// each lead on, abandons the whole retrieval with that status: nothing that
/// was gathered before it is handed out.
pub proof fn lemma_failed_page_aborts<T>(items: Seq<T>, url: Seq<char>, pages: Seq<PageModel<T>>, k: int)
    requires
        0 <= k < pages.len(),
        !is_success(pages[k].status),
        forall|i: int| 0 <= i < k ==> #[trigger] good_page(pages[i], true),
    ensures
        drive(PagerState { items, cursor: Some(url) }, pages)
            == Err::<PagerState<T>, FetchError>(FetchError::Status(pages[k].status)),
    decreases k,
{
    if k > 0 {
        assert(good_page(pages[0], true));
        let page = pages[0];
        let next = PagerState { items: items + page.items->Some_0, cursor: cursor_after(page) };
        let rest = pages.drop_first();
        assert forall|i: int| 0 <= i < k - 1 implies #[trigger] good_page(rest[i], true) by {
            assert(good_page(pages[i + 1], true));
        }
        lemma_failed_page_aborts(next.items, next.cursor->Some_0, rest, k - 1);
    }
}

} // verus!
