//! Finding the blocks of a text and turning each into a page.

use crate::clean::{clean, clean_body, end_marker, end_token};
use crate::text::{
    chars_of, find, find_char, find_seq, is_space, lemma_find_from, lemma_position,
    lemma_trim_bounds, occurs_at, position, string_of, trim, trim_end, trim_start, trim_slice,
};
use vstd::prelude::*;
use vstd::slice::{slice_subrange, slice_to_vec};

verus! {

/// The token that opens a block.
pub open spec fn start_token() -> Seq<char> {
    seq!['@', 'M', 'A', 'N', 'S', 'T', 'A', 'R', 'T']
}

/// The token that opens a block.
pub fn start_marker() -> (r: [char; 9])
    ensures
        r@ == start_token(),
{
    let r: [char; 9] = ['@', 'M', 'A', 'N', 'S', 'T', 'A', 'R', 'T'];
    r
}

/// Why a segment gives no page.
#[derive(Clone, Copy, Debug, PartialEq, Eq, Structural)]
pub enum ExtractError {
    /// No `{` follows the start token.
    NoOpenDelimiter,
    /// No `}` follows the start token.
    UnclosedDelimiter,
    /// The first `}` stands before the first `{`.
    MisplacedDelimiter,
    /// The name between the braces is empty or holds a line feed.
    MalformedName,
    /// No end token follows the name.
    UnclosedBlock,
}

impl ExtractError {
    /// What is said of the file in which the error was found.
    pub open spec fn message_text(self) -> Seq<char> {
        match self {
            ExtractError::NoOpenDelimiter => "No opened '{' for MANSTART"@,
            ExtractError::UnclosedDelimiter => "Unclosed '{' for MANSTART"@,
            ExtractError::MisplacedDelimiter => "'}' before '{' for MANSTART"@,
            ExtractError::MalformedName => "malformed manpage name"@,
            ExtractError::UnclosedBlock => "Unclosed @MANSTART (use @MANEND)"@,
        }
    }

    /// What is said of the file in which the error was found.
    pub fn message(&self) -> (r: &'static str)
        ensures
            r@ == self.message_text(),
    {
        match self {
            ExtractError::NoOpenDelimiter => "No opened '{' for MANSTART",
            ExtractError::UnclosedDelimiter => "Unclosed '{' for MANSTART",
            ExtractError::MisplacedDelimiter => "'}' before '{' for MANSTART",
            ExtractError::MalformedName => "malformed manpage name",
            ExtractError::UnclosedBlock => "Unclosed @MANSTART (use @MANEND)",
        }
    }
}

/// A block as it was found: its name and its body.
pub struct Block {
    pub name: Seq<char>,
    pub body: Seq<char>,
}

/// A block as it was found: its name and its body.
#[derive(Debug)]
pub struct ManBlock {
    pub name: Vec<char>,
    pub body: Vec<char>,
}

impl View for ManBlock {
    type V = Block;

    open spec fn view(&self) -> Block {
        Block { name: self.name@, body: self.body@ }
    }
}

/// A page ready to be written: its name and its text.
pub struct Page {
    pub name: Seq<char>,
    pub text: Seq<char>,
}

/// A page ready to be written: its name and its text.
#[derive(Debug)]
pub struct CleanedPage {
    pub name: Vec<char>,
    pub text: Vec<char>,
}

impl View for CleanedPage {
    type V = Page;

    open spec fn view(&self) -> Page {
        Page { name: self.name@, text: self.text@ }
    }
}

impl CleanedPage {
    /// The name of the page as a string.
    pub fn name_string(&self) -> (s: String)
        ensures
            s@ == self@.name,
    {
        string_of(self.name.as_slice())
    }

    /// The text of the page as a string.
    pub fn text_string(&self) -> (s: String)
        ensures
            s@ == self@.text,
    {
        string_of(self.text.as_slice())
    }
}

/// Whether `name` can name a page: it is not empty and holds no line feed.
pub open spec fn is_single_line(name: Seq<char>) -> bool {
    name.len() > 0 && !name.contains('\n')
}

/// The block that the segment `seg` holds, `seg` being what follows a start
/// token. The name stands between the first `{` and the first `}`. The body
/// is what follows that `}` up to the first end token behind it, the token
/// included, without the white space at its two ends.
pub open spec fn block_of(seg: Seq<char>) -> Result<Block, ExtractError> {
    match (position(seg, '{'), position(seg, '}')) {
        (None, _) => Err(ExtractError::NoOpenDelimiter),
        (Some(_), None) => Err(ExtractError::UnclosedDelimiter),
        (Some(open), Some(close)) => {
            let name = seg.subrange(open + 1, close);
            let rest = seg.subrange(close + 1, seg.len() as int);
            if close < open {
                Err(ExtractError::MisplacedDelimiter)
            } else if !is_single_line(name) {
                Err(ExtractError::MalformedName)
            } else {
                match find(rest, end_token()) {
                    None => Err(ExtractError::UnclosedBlock),
                    Some(e) => Ok(
                        Block { name, body: trim(rest.subrange(0, e + end_token().len())) },
                    ),
                }
            }
        },
    }
}

/// The page that the segment `seg` gives: the name of its block, and the
/// body of its block cleaned.
pub open spec fn page_of(seg: Seq<char>) -> Result<Page, ExtractError> {
    match block_of(seg) {
        Ok(block) => Ok(Page { name: block.name, text: clean_body(block.body) }),
        Err(e) => Err(e),
    }
}

/// A block that was found has a name of one line, and a body that ends with
/// the end token and neither begins nor ends with white space.
pub proof fn lemma_block_well_formed(seg: Seq<char>)
    requires
        block_of(seg) is Ok,
    ensures
        is_single_line(block_of(seg)->Ok_0.name),
        occurs_at(
            block_of(seg)->Ok_0.body,
            end_token(),
            block_of(seg)->Ok_0.body.len() - end_token().len(),
        ),
        !is_space(block_of(seg)->Ok_0.body.first()),
        !is_space(block_of(seg)->Ok_0.body.last()),
{
    let close = position(seg, '}')->Some_0;
    let rest = seg.subrange(close + 1, seg.len() as int);
    let e = find(rest, end_token())->Some_0;
    let n = end_token().len() as int;
    let cut = rest.subrange(0, e + n);
    let body = block_of(seg)->Ok_0.body;
    lemma_find_from(rest, end_token(), 0);
    lemma_trim_bounds(cut);
    assert forall|k: int| 0 <= k < n implies cut[e + k] == end_token()[k] by {
        assert(rest.subrange(e, e + n)[k] == rest[e + k]);
    }
    assert(!is_space(cut[e]) && !is_space(cut[e + n - 1]));
    assert(trim_start(cut) <= e && trim_end(cut) == e + n);
    assert(body.subrange(body.len() - n, body.len() as int) =~= end_token());
}

/// When a segment is refused for its braces or its name: without any `{`
/// for want of an opening brace; with a `{` but no `}` for want of a closing
/// one; and, with the first `{` before the first `}`, for its name exactly
/// when the text between the two is empty or holds a line feed.
pub proof fn lemma_block_errors(seg: Seq<char>)
    ensures
        block_of(seg) == Err::<Block, ExtractError>(ExtractError::NoOpenDelimiter)
            <==> !seg.contains('{'),
        block_of(seg) == Err::<Block, ExtractError>(ExtractError::UnclosedDelimiter) <==> (
        seg.contains('{') && !seg.contains('}')),
        forall|open: int, close: int|
            position(seg, '{') == Some(open) && position(seg, '}') == Some(close) && open < close
                ==> (block_of(seg) == Err::<Block, ExtractError>(ExtractError::MalformedName)
                <==> (close == open + 1 || seg.subrange(open + 1, close).contains('\n'))),
{
    lemma_position(seg, '{');
    lemma_position(seg, '}');
}

/// Parses the block that follows a start token.
pub fn parse_block(seg: &[char]) -> (r: Result<ManBlock, ExtractError>)
    ensures
        match r {
            Ok(block) => block_of(seg@) == Ok::<Block, ExtractError>(block@),
            Err(e) => block_of(seg@) == Err::<Block, ExtractError>(e),
        },
{
    let open: usize = match find_char(seg, '{') {
        None => { return Err(ExtractError::NoOpenDelimiter); },
        Some(i) => i,
    };
    let close: usize = match find_char(seg, '}') {
        None => { return Err(ExtractError::UnclosedDelimiter); },
        Some(i) => i,
    };
    if close < open {
        return Err(ExtractError::MisplacedDelimiter);
    }
    proof {
        lemma_position(seg@, '{');
        lemma_position(seg@, '}');
    }
    let name: &[char] = slice_subrange(seg, open + 1, close);
    proof {
        lemma_position(name@, '\n');
    }
    if name.len() == 0 || find_char(name, '\n').is_some() {
        return Err(ExtractError::MalformedName);
    }
    let rest: &[char] = slice_subrange(seg, close + 1, seg.len());
    let end = end_marker();
    match find_seq(rest, end.as_slice()) {
        None => Err(ExtractError::UnclosedBlock),
        Some(e) => {
            let body: &[char] = trim_slice(slice_subrange(rest, 0, e + end.len()));
            Ok(ManBlock { name: slice_to_vec(name), body: slice_to_vec(body) })
        },
    }
}

/// Cleans a block into the page that is written under its name.
pub fn clean_block(block: ManBlock) -> (page: CleanedPage)
    ensures
        page@.name == block@.name,
        page@.text == clean_body(block@.body),
{
    let text = clean(block.body.as_slice());
    CleanedPage { name: block.name, text }
}

/// Parses and cleans the block that follows a start token.
pub fn extract_page(seg: &[char]) -> (r: Result<CleanedPage, ExtractError>)
    ensures
        match r {
            Ok(page) => page_of(seg@) == Ok::<Page, ExtractError>(page@),
            Err(e) => page_of(seg@) == Err::<Page, ExtractError>(e),
        },
{
    match parse_block(seg) {
        Ok(block) => Ok(clean_block(block)),
        Err(e) => Err(e),
    }
}

/// What stands in `rest` before the next start token, or all of `rest`
/// where it holds none.
pub open spec fn first_segment(rest: Seq<char>) -> Seq<char> {
    match find(rest, start_token()) {
        Some(j) if 0 <= j <= rest.len() => rest.subrange(0, j),
        _ => rest,
    }
}

/// The segments of `s`: for each start token, in order, what follows it up
/// to the next start token or the end. What stands before the first start
/// token belongs to no segment.
pub open spec fn segments_of(s: Seq<char>) -> Seq<Seq<char>>
    decreases s.len(),
{
    match find(s, start_token()) {
        Some(i) if 0 <= i && i + start_token().len() <= s.len() => {
            let rest = s.subrange(i + start_token().len(), s.len() as int);
            seq![first_segment(rest)] + segments_of(rest)
        },
        _ => Seq::empty(),
    }
}

/// What stands before the next start token holds no start token.
pub proof fn lemma_first_segment_holds_no_start(rest: Seq<char>)
    ensures
        find(first_segment(rest), start_token()) is None,
{
    let seg = first_segment(rest);
    lemma_find_from(rest, start_token(), 0);
    lemma_find_from(seg, start_token(), 0);
    if find(seg, start_token()) is Some {
        let i = find(seg, start_token())->Some_0;
        let n = start_token().len() as int;
        assert(rest.subrange(i, i + n) =~= seg.subrange(i, i + n));
        assert(occurs_at(rest, start_token(), i));
    }
}

/// No segment holds a start token: each start token of a text opens a
/// segment of its own.
pub proof fn lemma_segments_hold_no_start(s: Seq<char>, k: int)
    requires
        0 <= k < segments_of(s).len(),
    ensures
        find(segments_of(s)[k], start_token()) is None,
    decreases s.len(),
{
    let i = find(s, start_token())->Some_0;
    let rest = s.subrange(i + start_token().len(), s.len() as int);
    assert(segments_of(s) == seq![first_segment(rest)] + segments_of(rest));
    if k == 0 {
        lemma_first_segment_holds_no_start(rest);
    } else {
        lemma_segments_hold_no_start(rest, k - 1);
    }
}

/// Whether `pages` and `error` are what the segments `segs` give when they
/// are taken in order up to the first that gives no page: a page for each
/// segment before that one, and its error; a page for every segment and no
/// error where each gives one.
pub open spec fn is_extraction_of(
    pages: Seq<Page>,
    error: Option<ExtractError>,
    segs: Seq<Seq<char>>,
) -> bool {
    &&& pages.len() <= segs.len()
    &&& forall|k: int|
        0 <= k < pages.len() ==> #[trigger] page_of(segs[k]) == Ok::<Page, ExtractError>(pages[k])
    &&& match error {
        None => pages.len() == segs.len(),
        Some(e) => pages.len() < segs.len() && page_of(segs[pages.len() as int]) == Err::<
            Page,
            ExtractError,
        >(e),
    }
}

/// What a text gave: the pages of its blocks up to the first block that is
/// not well formed, and what is wrong with that one.
#[derive(Debug)]
pub struct Extraction {
    pub pages: Vec<CleanedPage>,
    pub error: Option<ExtractError>,
}

impl Extraction {
    /// The pages, each as its view.
    pub open spec fn pages_view(&self) -> Seq<Page> {
        Seq::new(self.pages@.len(), |k: int| self.pages@[k]@)
    }
}

/// Where every segment holds a well-formed block, there are as many pages as
/// segments and no error, and each page has the name of its block and the
/// cleaned body of its block as its text.
pub proof fn lemma_well_formed_blocks_all_extracted(
    pages: Seq<Page>,
    error: Option<ExtractError>,
    segs: Seq<Seq<char>>,
)
    requires
        is_extraction_of(pages, error, segs),
        forall|k: int| 0 <= k < segs.len() ==> #[trigger] block_of(segs[k]) is Ok,
    ensures
        error is None,
        pages.len() == segs.len(),
        forall|k: int|
            0 <= k < segs.len() ==> {
                &&& (#[trigger] pages[k]).name == block_of(segs[k])->Ok_0.name
                &&& pages[k].text == clean_body(block_of(segs[k])->Ok_0.body)
            },
{
    assert forall|k: int| 0 <= k < segs.len() implies {
        &&& (#[trigger] pages[k]).name == block_of(segs[k])->Ok_0.name
        &&& pages[k].text == clean_body(block_of(segs[k])->Ok_0.body)
    } by {
        assert(page_of(segs[k]) == Ok::<Page, ExtractError>(pages[k]));
    }
}

/// The pages and the error of an extraction are determined by the segments.
pub proof fn lemma_extraction_unique(
    pages: Seq<Page>,
    error: Option<ExtractError>,
    pages2: Seq<Page>,
    error2: Option<ExtractError>,
    segs: Seq<Seq<char>>,
)
    requires
        is_extraction_of(pages, error, segs),
        is_extraction_of(pages2, error2, segs),
    ensures
        pages == pages2,
        error == error2,
{
    assert forall|k: int| 0 <= k < pages.len() implies pages[k] == pages2[k] by {
        assert(page_of(segs[k]) == Ok::<Page, ExtractError>(pages2[k]));
    }
}

/// Splits a text at its start tokens: what follows each of them, up to the
/// next one or to the end.
pub fn split_segments(content: &[char]) -> (segs: Vec<Vec<char>>)
    ensures
        segs@.len() == segments_of(content@).len(),
        forall|k: int| 0 <= k < segs@.len() ==> (#[trigger] segs@[k])@ == segments_of(content@)[k],
{
    let start = start_marker();
    let mut segs: Vec<Vec<char>> = Vec::new();
    let mut rest: &[char] = content;
    loop
        invariant
            start@ == start_token(),
            segs@.len() + segments_of(rest@).len() == segments_of(content@).len(),
            forall|k: int|
                0 <= k < segs@.len() ==> (#[trigger] segs@[k])@ == segments_of(content@)[k],
            forall|k: int|
                0 <= k < segments_of(rest@).len() ==> #[trigger] segments_of(rest@)[k]
                    == segments_of(content@)[segs@.len() + k],
        ensures
            segs@.len() == segments_of(content@).len(),
            forall|k: int|
                0 <= k < segs@.len() ==> (#[trigger] segs@[k])@ == segments_of(content@)[k],
        decreases rest.len(),
    {
        let ghost before = rest@;
        let ghost done = segs@.len();
        match find_seq(rest, start.as_slice()) {
            None => {
                break ;
            },
            Some(i) => {
                let after: &[char] = slice_subrange(rest, i + start.len(), rest.len());
                let seg: &[char] = match find_seq(after, start.as_slice()) {
                    None => after,
                    Some(j) => slice_subrange(after, 0, j),
                };
                assert(segments_of(before) == seq![seg@] + segments_of(after@));
                assert(segments_of(before)[0] == seg@);
                assert forall|k: int| 0 <= k < segments_of(after@).len() implies #[trigger] segments_of(
                    after@,
                )[k] == segments_of(content@)[done + 1 + k] by {
                    assert(segments_of(after@)[k] == segments_of(before)[k + 1]);
                }
                segs.push(slice_to_vec(seg));
                rest = after;
            },
        }
    }
    segs
}

/// Extracts the pages of a text: one for each block, in order, up to the
/// first block that is not well formed, whose error is reported with the
/// pages found before it.
pub fn extract_pages(content: &[char]) -> (r: Extraction)
    ensures
        is_extraction_of(r.pages_view(), r.error, segments_of(content@)),
{
    let segs = split_segments(content);
    let mut pages: Vec<CleanedPage> = Vec::new();
    let mut k: usize = 0;
    while k < segs.len()
        invariant
            k <= segs@.len(),
            pages@.len() == k,
            segs@.len() == segments_of(content@).len(),
            forall|j: int|
                0 <= j < segs@.len() ==> (#[trigger] segs@[j])@ == segments_of(content@)[j],
            forall|j: int|
                0 <= j < k ==> #[trigger] page_of(segments_of(content@)[j]) == Ok::<
                    Page,
                    ExtractError,
                >(pages@[j]@),
        decreases segs@.len() - k,
    {
        match extract_page(segs[k].as_slice()) {
            Ok(page) => {
                pages.push(page);
            },
            Err(e) => {
                return Extraction { pages, error: Some(e) };
            },
        }
        k += 1;
    }
    Extraction { pages, error: None }
}

/// Extracts the pages of a text given as a string.
pub fn extract_text(content: &str) -> (r: Extraction)
    ensures
        is_extraction_of(r.pages_view(), r.error, segments_of(content@)),
{
    let content = chars_of(content);
    extract_pages(content.as_slice())
}

} // verus!
