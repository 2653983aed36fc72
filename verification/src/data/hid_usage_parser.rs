//! Reading the USB HID usage tables.

use vstd::prelude::*;

use crate::arguments::output::spec_parse_hex;
use crate::data::hid_usage::{HidPage, HidUsage, PageView, UsageView};
use crate::text::{chars_eq, chars_of, string_from_chars};

verus! {

/// What `String::from_utf8_lossy` makes of some bytes.
pub uninterp spec fn utf8_lossy(bytes: Seq<u8>) -> Seq<char>;

/// Wraps `String::from_utf8_lossy`, which std documents as decoding UTF-8 and replacing each
/// invalid sequence by U+FFFD. The contract names that result, and states only that bytes which
/// are all ASCII decode to the same characters.
#[verifier::external_body]
pub(crate) fn decode_lossy(bytes: &[u8]) -> (res: String)
    ensures
        res@ == utf8_lossy(bytes@),
        (forall|i: int| 0 <= i < bytes@.len() ==> bytes@[i] < 128) ==> res@ == bytes@.map_values(|b: u8| b as char),
{
    String::from_utf8_lossy(bytes).into_owned()
}

/// Whether `char::is_ascii_whitespace` holds: space, tab, line feed, form feed or carriage return.
pub open spec fn is_ascii_white(c: char) -> bool {
    c == ' ' || c == '\t' || c == '\n' || c == '\u{0C}' || c == '\r'
}

fn ascii_white(c: char) -> (res: bool)
    ensures
        res == is_ascii_white(c),
{
    c == ' ' || c == '\t' || c == '\n' || c == '\u{0C}' || c == '\r'
}

/// The index of the first ASCII white space character from index `from` on.
pub open spec fn first_white_from(s: Seq<char>, from: int) -> Option<int>
    decreases s.len() - from,
{
    if from < 0 || from >= s.len() {
        None
    } else if is_ascii_white(s[from]) {
        Some(from)
    } else {
        first_white_from(s, from + 1)
    }
}

/// The text without its leading ASCII white space.
pub open spec fn trim_white_start(s: Seq<char>) -> Seq<char>
    decreases s.len(),
{
    if s.len() > 0 && is_ascii_white(s[0]) {
        trim_white_start(s.drop_first())
    } else {
        s
    }
}

/// The first word of a text, and the rest after the white space that follows it; the rest is None
/// if no white space follows the first word.
pub open spec fn spec_take_word(s: Seq<char>) -> (Seq<char>, Option<Seq<char>>) {
    match first_white_from(s, 0) {
        None => (s, None),
        Some(k) => (s.take(k), Some(trim_white_start(s.skip(k)))),
    }
}

fn trim_white(s: &[char]) -> (res: Vec<char>)
    ensures
        res@ == trim_white_start(s@),
{
    let mut i: usize = 0;
    proof {
        assert(s@.skip(0) == s@);
    }
    while i < s.len() && ascii_white(s[i])
        invariant
            i <= s@.len(),
            trim_white_start(s@) == trim_white_start(s@.skip(i as int)),
        decreases s@.len() - i,
    {
        proof {
            assert(s@.skip(i as int).drop_first() == s@.skip(i + 1));
        }
        i += 1;
    }
    proof {
        if i < s@.len() {
            assert(s@.skip(i as int)[0] == s@[i as int]);
        }
    }
    crate::text::slice_chars(s, i, s.len())
}

/// Returns the first word in the string and the rest of the string, skipping over the whitespace
/// between the word and the rest of the sentence. The second option is None if no whitespace
/// follows the first word. If whitespace follows but no word comes after the whitespace, the
/// second argument will be Some of an empty text.
pub fn take_word(input: &[char]) -> (res: (Vec<char>, Option<Vec<char>>))
    ensures
        res.0@ == spec_take_word(input@).0,
        match res.1 {
            Some(rest) => spec_take_word(input@).1 == Some(rest@),
            None => spec_take_word(input@).1 is None,
        },
{
    let mut i: usize = 0;
    while i < input.len()
        invariant
            i <= input@.len(),
            first_white_from(input@, 0) == first_white_from(input@, i as int),
        decreases input@.len() - i,
    {
        if ascii_white(input[i]) {
            let start = crate::text::slice_chars(input, 0, i);
            let after = crate::text::slice_chars(input, i, input.len());
            let rest = trim_white(after.as_slice());
            proof {
                assert(after@ == input@.skip(i as int));
                assert(start@ == input@.take(i as int));
            }
            return (start, Some(rest));
        }
        i += 1;
    }
    proof {
        assert(input@.take(input@.len() as int) == input@);
    }
    (crate::text::slice_chars(input, 0, input.len()), None)
}

/// The number that `u16::from_str_radix(s, 16)` reads: hexadecimal digits after an optional `+`.
pub open spec fn spec_radix16(s: Seq<char>) -> Option<u16> {
    if s.len() > 0 && s[0] == '+' {
        spec_parse_hex(s.skip(1))
    } else {
        spec_parse_hex(s)
    }
}

fn radix16(s: &[char]) -> (res: Option<u16>)
    ensures
        res == spec_radix16(s@),
{
    if s.len() > 0 && s[0] == '+' {
        let rest = crate::text::slice_chars(s, 1, s.len());
        proof {
            assert(rest@ == s@.skip(1));
        }
        crate::arguments::output::parse_hex(rest.as_slice())
    } else {
        crate::arguments::output::parse_hex(s)
    }
}

/// Inserts a usage into a list sorted by id, after every usage whose id is not larger.
pub open spec fn insert_usage(sorted: Seq<UsageView>, u: UsageView) -> Seq<UsageView>
    decreases sorted.len(),
{
    if sorted.len() == 0 || sorted.last().id <= u.id {
        sorted.push(u)
    } else {
        insert_usage(sorted.drop_last(), u).push(sorted.last())
    }
}

/// The usages sorted by id, keeping the order of those with equal ids.
pub open spec fn sort_usages(s: Seq<UsageView>) -> Seq<UsageView>
    decreases s.len(),
{
    if s.len() == 0 {
        s
    } else {
        insert_usage(sort_usages(s.drop_last()), s.last())
    }
}

/// Inserts a page into a list sorted by id, after every page whose id is not larger.
pub open spec fn insert_page(sorted: Seq<PageView>, p: PageView) -> Seq<PageView>
    decreases sorted.len(),
{
    if sorted.len() == 0 || sorted.last().id <= p.id {
        sorted.push(p)
    } else {
        insert_page(sorted.drop_last(), p).push(sorted.last())
    }
}

/// The pages sorted by id, keeping the order of those with equal ids.
pub open spec fn sort_pages(s: Seq<PageView>) -> Seq<PageView>
    decreases s.len(),
{
    if s.len() == 0 {
        s
    } else {
        insert_page(sort_pages(s.drop_last()), s.last())
    }
}

pub open spec fn usages_view(s: Seq<HidUsage>) -> Seq<UsageView> {
    s.map_values(|u: HidUsage| u@)
}

pub open spec fn pages_view(s: Seq<HidPage>) -> Seq<PageView> {
    s.map_values(|p: HidPage| p@)
}

proof fn lemma_insert_usage_at(sorted: Seq<UsageView>, u: UsageView, j: int)
    requires
        0 <= j <= sorted.len(),
        forall|k: int| j <= k < sorted.len() ==> (#[trigger] sorted[k]).id > u.id,
        j > 0 ==> sorted[j - 1].id <= u.id,
    ensures
        insert_usage(sorted, u) == sorted.insert(j, u),
    decreases sorted.len(),
{
    if sorted.len() == 0 || sorted.last().id <= u.id {
        if j < sorted.len() {
            assert(sorted[sorted.len() - 1].id > u.id);
        }
        assert(sorted.push(u) =~= sorted.insert(j, u));
    } else {
        let init = sorted.drop_last();
        assert forall|k: int| j <= k < init.len() implies (#[trigger] init[k]).id > u.id by {
            assert(init[k] == sorted[k]);
        }
        if j == sorted.len() {
            assert(sorted[j - 1].id <= u.id);
            assert(false);
        }
        lemma_insert_usage_at(init, u, j);
        assert(init.insert(j, u).push(sorted.last()) =~= sorted.insert(j, u));
    }
}

proof fn lemma_insert_page_at(sorted: Seq<PageView>, p: PageView, j: int)
    requires
        0 <= j <= sorted.len(),
        forall|k: int| j <= k < sorted.len() ==> (#[trigger] sorted[k]).id > p.id,
        j > 0 ==> sorted[j - 1].id <= p.id,
    ensures
        insert_page(sorted, p) == sorted.insert(j, p),
    decreases sorted.len(),
{
    if sorted.len() == 0 || sorted.last().id <= p.id {
        if j < sorted.len() {
            assert(sorted[sorted.len() - 1].id > p.id);
        }
        assert(sorted.push(p) =~= sorted.insert(j, p));
    } else {
        let init = sorted.drop_last();
        assert forall|k: int| j <= k < init.len() implies (#[trigger] init[k]).id > p.id by {
            assert(init[k] == sorted[k]);
        }
        if j == sorted.len() {
            assert(sorted[j - 1].id <= p.id);
            assert(false);
        }
        lemma_insert_page_at(init, p, j);
        assert(init.insert(j, p).push(sorted.last()) =~= sorted.insert(j, p));
    }
}

/// Sorts usages by id, keeping the order of those with equal ids.
fn sort_usages_exec(list: Vec<HidUsage>) -> (res: Vec<HidUsage>)
    ensures
        usages_view(res@) == sort_usages(usages_view(list@)),
{
    let ghost all = usages_view(list@);
    let mut rest = list;
    let mut sorted: Vec<HidUsage> = Vec::new();
    let ghost mut taken: int = 0;
    proof {
        assert(all.take(0) =~= Seq::<UsageView>::empty());
        assert(usages_view(sorted@) =~= Seq::<UsageView>::empty());
    }
    while rest.len() > 0
        invariant
            0 <= taken <= all.len(),
            usages_view(rest@) == all.skip(taken),
            usages_view(sorted@) == sort_usages(all.take(taken)),
        decreases rest@.len(),
    {
        let ghost before_rest = usages_view(rest@);
        let ghost raw_before = rest@;
        let usage = rest.remove(0);
        proof {
            assert(before_rest == all.skip(taken));
            assert(before_rest.len() == raw_before.len());
            assert(taken < all.len());
            assert(raw_before[0] == usage);
            assert(before_rest[0] == raw_before[0]@);
            assert(all.skip(taken)[0] == all[taken]);
            assert(all[taken] == usage@);
            assert forall|k: int| 0 <= k < rest@.len() implies #[trigger] usages_view(rest@)[k] == all.skip(taken + 1)[k] by {
                assert(rest@[k] == raw_before[k + 1]);
                assert(before_rest[k + 1] == raw_before[k + 1]@);
                assert(all.skip(taken)[k + 1] == all[taken + k + 1]);
            }
            assert(usages_view(rest@) =~= all.skip(taken + 1));
            assert(all.take(taken + 1).drop_last() == all.take(taken));
            assert(all.take(taken + 1).last() == usage@);
        }
        let ghost sorted_before = usages_view(sorted@);
        let mut j: usize = sorted.len();
        while j > 0 && sorted[j - 1].id > usage.id
            invariant
                j <= sorted@.len(),
                sorted_before == usages_view(sorted@),
                forall|k: int| j <= k < sorted@.len() ==> (#[trigger] sorted_before[k]).id > usage.id,
            decreases j,
        {
            proof {
                assert(sorted_before[j - 1] == sorted@[j - 1]@);
            }
            j -= 1;
        }
        proof {
            if j > 0 {
                assert(sorted_before[j - 1] == sorted@[j - 1]@);
            }
            lemma_insert_usage_at(sorted_before, usage@, j as int);
        }
        sorted.insert(j, usage);
        proof {
            assert(usages_view(sorted@) =~= sorted_before.insert(j as int, usage@));
            taken = taken + 1;
        }
    }
    proof {
        assert(all.skip(taken).len() == 0);
        assert(all.take(taken) == all);
    }
    sorted
}

/// Sorts pages by id, keeping the order of those with equal ids.
fn sort_pages_exec(list: Vec<HidPage>) -> (res: Vec<HidPage>)
    ensures
        pages_view(res@) == sort_pages(pages_view(list@)),
{
    let ghost all = pages_view(list@);
    let mut rest = list;
    let mut sorted: Vec<HidPage> = Vec::new();
    let ghost mut taken: int = 0;
    proof {
        assert(all.take(0) =~= Seq::<PageView>::empty());
        assert(pages_view(sorted@) =~= Seq::<PageView>::empty());
    }
    while rest.len() > 0
        invariant
            0 <= taken <= all.len(),
            pages_view(rest@) == all.skip(taken),
            pages_view(sorted@) == sort_pages(all.take(taken)),
        decreases rest@.len(),
    {
        let ghost before_rest = pages_view(rest@);
        let ghost raw_before = rest@;
        let page = rest.remove(0);
        proof {
            assert(before_rest == all.skip(taken));
            assert(before_rest.len() == raw_before.len());
            assert(taken < all.len());
            assert(raw_before[0] == page);
            assert(before_rest[0] == raw_before[0]@);
            assert(all.skip(taken)[0] == all[taken]);
            assert(all[taken] == page@);
            assert forall|k: int| 0 <= k < rest@.len() implies #[trigger] pages_view(rest@)[k] == all.skip(taken + 1)[k] by {
                assert(rest@[k] == raw_before[k + 1]);
                assert(before_rest[k + 1] == raw_before[k + 1]@);
                assert(all.skip(taken)[k + 1] == all[taken + k + 1]);
            }
            assert(pages_view(rest@) =~= all.skip(taken + 1));
            assert(all.take(taken + 1).drop_last() == all.take(taken));
            assert(all.take(taken + 1).last() == page@);
        }
        let ghost sorted_before = pages_view(sorted@);
        let mut j: usize = sorted.len();
        while j > 0 && sorted[j - 1].id > page.id
            invariant
                j <= sorted@.len(),
                sorted_before == pages_view(sorted@),
                forall|k: int| j <= k < sorted@.len() ==> (#[trigger] sorted_before[k]).id > page.id,
            decreases j,
        {
            proof {
                assert(sorted_before[j - 1] == sorted@[j - 1]@);
            }
            j -= 1;
        }
        proof {
            if j > 0 {
                assert(sorted_before[j - 1] == sorted@[j - 1]@);
            }
            lemma_insert_page_at(sorted_before, page@, j as int);
        }
        sorted.insert(j, page);
        proof {
            assert(pages_view(sorted@) =~= sorted_before.insert(j as int, page@));
            taken = taken + 1;
        }
    }
    proof {
        assert(all.skip(taken).len() == 0);
        assert(all.take(taken) == all);
    }
    sorted
}

/// The pages read so far: the one whose usages are being read, and those that are complete.
pub struct TableState {
    pub partial: Option<PageView>,
    pub complete: Seq<PageView>,
}

/// The complete pages, after the page being read is completed: its usages are sorted by id.
pub open spec fn finalize(state: TableState) -> Seq<PageView> {
    match state.partial {
        Some(page) => state.complete.push(PageView { usages: sort_usages(page.usages), ..page }),
        None => state.complete,
    }
}

/// The pages after one more line. A line "HUT <hex id> <name>" starts a new page; a line that
/// starts with a tab and holds "<hex id> <name>" adds a usage to the page being read; any other
/// line completes that page. Lines that cannot be read are skipped.
pub open spec fn table_line_step(state: TableState, line: Seq<char>) -> TableState {
    let (first, rest) = spec_take_word(line);
    if first == "HUT"@ && rest is Some {
        let (id_str, name) = spec_take_word(rest.unwrap());
        if name is Some && spec_radix16(id_str) is Some {
            TableState {
                partial: Some(PageView { id: spec_radix16(id_str).unwrap(), name: name.unwrap(), usages: Seq::empty() }),
                complete: finalize(state),
            }
        } else {
            state
        }
    } else {
        match state.partial {
            None => state,
            Some(page) => if line.len() > 0 && line[0] == '\t' {
                let (id_str, name) = spec_take_word(trim_white_start(line));
                if name is Some && spec_radix16(id_str) is Some {
                    TableState {
                        partial: Some(PageView {
                            usages: page.usages.push(UsageView { id: spec_radix16(id_str).unwrap(), name: name.unwrap() }),
                            ..page
                        }),
                        ..state
                    }
                } else {
                    state
                }
            } else {
                TableState { partial: None, complete: finalize(state) }
            },
        }
    }
}

/// The text of a line as read up to and including its line break: its last byte is dropped,
/// and the rest is decoded as UTF-8, replacing what is not valid.
pub open spec fn chunk_line(chunk: Seq<u8>) -> Seq<char> {
    if chunk.len() > 0 {
        utf8_lossy(chunk.drop_last())
    } else {
        utf8_lossy(chunk)
    }
}

pub open spec fn table_state(chunks: Seq<Seq<u8>>) -> TableState
    decreases chunks.len(),
{
    if chunks.len() == 0 {
        TableState { partial: None, complete: Seq::empty() }
    } else {
        table_line_step(table_state(chunks.drop_last()), chunk_line(chunks.last()))
    }
}

/// The pages of the tables, sorted by id.
pub open spec fn spec_parse_tables(chunks: Seq<Seq<u8>>) -> Seq<PageView> {
    sort_pages(finalize(table_state(chunks)))
}

pub open spec fn chunks_view(chunks: Seq<Vec<u8>>) -> Seq<Seq<u8>> {
    chunks.map_values(|c: Vec<u8>| c@)
}

pub open spec fn partial_view(partial: Option<HidPage>) -> Option<PageView> {
    match partial {
        Some(page) => Some(page@),
        None => None,
    }
}

fn finalize_exec(partial: &mut Option<HidPage>, complete: &mut Vec<HidPage>)
    ensures
        *final(partial) is None,
        pages_view(final(complete)@)
            == finalize(TableState { partial: partial_view(*old(partial)), complete: pages_view(old(complete)@) }),
{
    let mut taken: Option<HidPage> = None;
    std::mem::swap(&mut taken, partial);
    match taken {
        Some(page) => {
            let HidPage { id, name, usages } = page;
            let ghost name_view = name@;
            let sorted = sort_usages_exec(usages);
            let ghost before = pages_view(complete@);
            let finished = HidPage { id, name, usages: sorted };
            complete.push(finished);
            proof {
                assert(pages_view(complete@) =~= before.push(finished@));
            }
        },
        None => {},
    }
}

/// Reads the pages from the lines of the tables, each as read up to and including its line break.
/// The only reading that fails is that of the file; its format is not validated.
pub fn parse_tables(chunks: &Vec<Vec<u8>>) -> (res: Vec<HidPage>)
    ensures
        pages_view(res@) == spec_parse_tables(chunks_view(chunks@)),
{
    let ghost all = chunks_view(chunks@);
    let mut partial: Option<HidPage> = None;
    let mut complete: Vec<HidPage> = Vec::new();
    let hut = chars_of("HUT");
    proof {
        assert(pages_view(complete@) =~= Seq::<PageView>::empty());
        assert(all.take(0) =~= Seq::<Seq<u8>>::empty());
    }
    let mut i: usize = 0;
    while i < chunks.len()
        invariant
            i <= chunks@.len(),
            all == chunks_view(chunks@),
            hut@ == "HUT"@,
            table_state(all.take(i as int)) == (TableState { partial: partial_view(partial), complete: pages_view(complete@) }),
        decreases chunks@.len() - i,
    {
        let chunk = &chunks[i];
        let bytes: &[u8] = if chunk.len() > 0 {
            proof {
                assert(chunk@.subrange(0, chunk@.len() - 1) == chunk@.drop_last());
            }
            slice_bytes(chunk.as_slice(), chunk.len() - 1)
        } else {
            chunk.as_slice()
        };
        let line_string = decode_lossy(bytes);
        let line = chars_of(line_string.as_str());
        proof {
            assert(all[i as int] == chunk@);
            assert(line@ == chunk_line(all[i as int]));
            assert(all.take(i + 1).drop_last() == all.take(i as int));
            assert(all.take(i + 1).last() == all[i as int]);
        }
        let ghost state = TableState { partial: partial_view(partial), complete: pages_view(complete@) };
        let (first, rest) = take_word(line.as_slice());
        if chars_eq(first.as_slice(), hut.as_slice()) && rest.is_some() {
            let rest_chars = rest.unwrap();
            let (id_str, name) = take_word(rest_chars.as_slice());
            if let Some(name_chars) = name {
                if let Some(page_id) = radix16(id_str.as_slice()) {
                    finalize_exec(&mut partial, &mut complete);
                    let page = HidPage { id: page_id, name: string_from_chars(name_chars.as_slice()), usages: Vec::new() };
                    proof {
                        assert(page@.usages =~= Seq::<UsageView>::empty());
                    }
                    partial = Some(page);
                }
            }
        } else if partial.is_some() {
            if line.len() > 0 && line[0] == '\t' {
                let remainder = trim_white(line.as_slice());
                let (id_str, name) = take_word(remainder.as_slice());
                if let Some(name_chars) = name {
                    if let Some(usage_id) = radix16(id_str.as_slice()) {
                        let mut taken: Option<HidPage> = None;
                        std::mem::swap(&mut taken, &mut partial);
                        let mut page = taken.unwrap();
                        let ghost before = page@;
                        let usage = HidUsage { id: usage_id, name: string_from_chars(name_chars.as_slice()) };
                        page.usages.push(usage);
                        proof {
                            assert(page@.usages =~= before.usages.push(usage@));
                        }
                        partial = Some(page);
                    }
                }
            } else {
                finalize_exec(&mut partial, &mut complete);
            }
        }
        i += 1;
    }
    proof {
        assert(all.take(chunks@.len() as int) == all);
    }
    finalize_exec(&mut partial, &mut complete);
    sort_pages_exec(complete)
}

/// The first `len` bytes.
fn slice_bytes(bytes: &[u8], len: usize) -> (res: &[u8])
    requires
        len <= bytes@.len(),
    ensures
        res@ == bytes@.subrange(0, len as int),
{
    vstd::slice::slice_subrange(bytes, 0, len)
}

} // verus!
