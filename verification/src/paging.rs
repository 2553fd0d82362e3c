//! Pages of lists.
use vstd::prelude::*;

use crate::text;

verus! {

/// How large a page is where no size is asked for.
pub const DEFAULT_PAGE_SIZE: usize = 100;

/// Which part of a list is asked for.
#[derive(Debug, PartialEq, Eq, Structural, Copy, Clone)]
pub struct Paging {
    size: usize,
    offset: usize,
}

/// How many items a page of the size has at most; zero stands for the usual size.
pub open spec fn page_size(size: usize) -> usize {
    if size == 0 {
        DEFAULT_PAGE_SIZE
    } else {
        size
    }
}

/// Where a page ends in a list of the length.
pub open spec fn page_end(paging: Paging, len: nat) -> nat {
    if paging.start() + paging.limit() <= len {
        (paging.start() + paging.limit()) as nat
    } else {
        len
    }
}

impl Paging {
    /// Where the page starts.
    pub closed spec fn start(&self) -> usize {
        self.offset
    }

    /// How many items the page has at most.
    pub closed spec fn limit(&self) -> usize {
        self.size
    }

    /// The page of the size that starts at the offset, or at the front without one.
    pub fn new(size: usize, offset: Option<usize>) -> (p: Paging)
        ensures
            p.limit() == page_size(size),
            p.start() == (match offset {
                Some(o) => o,
                None => 0,
            }),
    {
        let size: usize = if size == 0 {
            DEFAULT_PAGE_SIZE
        } else {
            size
        };
        let offset: usize = match offset {
            Some(o) => o,
            None => 0,
        };
        Paging { size, offset }
    }

    /// Where the page starts and ends in a list of the length.
    pub fn range(&self, len: usize) -> (r: (usize, usize))
        ensures
            r.1 == page_end(*self, len as nat),
            r.0 == if self.start() <= r.1 {
                self.start()
            } else {
                r.1
            },
            r.0 <= r.1 <= len,
    {
        let end: usize = if self.offset <= len && self.size <= len - self.offset {
            self.offset + self.size
        } else {
            len
        };
        let start: usize = if self.offset <= end {
            self.offset
        } else {
            end
        };
        (start, end)
    }
}

/// A token from which the next page is asked for: where it starts.
#[derive(Debug, PartialEq, Eq, Structural, Copy, Clone)]
pub struct PageToken {
    pub offset: usize,
}

impl PageToken {
    /// The token of the page that starts at the offset.
    pub fn new(offset: usize) -> (t: PageToken)
        ensures
            t.offset == offset,
    {
        PageToken { offset }
    }

    /// The text of the token.
    pub fn encode(&self) -> (s: String)
        ensures
            s@ == text::decimal(self.offset as nat),
    {
        text::decimal_string(self.offset as u64)
    }

    /// Reads a token; none where the text is not that of a token.
    pub fn try_decode(raw: &str) -> (t: Option<PageToken>)
        ensures
            match t {
                Some(token) => text::number_read(raw@) == Some(token.offset as nat),
                None => text::number_read(raw@) is None || text::number_read(raw@)->0 > usize::MAX,
            },
    {
        match text::parse_number(raw) {
            Some(n) => if n <= usize::MAX as u64 {
                Some(PageToken { offset: n as usize })
            } else {
                None
            },
            None => None,
        }
    }
}

/// A page token reads back from its text.
pub proof fn law_page_token_reads_back(token: PageToken)
    ensures
        text::number_read(text::decimal(token.offset as nat)) == Some(token.offset as nat),
{
    text::law_decimal_reads_back(token.offset as u64);
}

} // verus!
