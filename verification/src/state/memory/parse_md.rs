//! Parser for the legacy `memory.md` prose format, used once when a plan
//! is migrated to the typed layout.
//!
//! An entry is a `## <title>` heading followed by a prose body; text
//! before the first heading is a preamble and is dropped. Each entry
//! becomes an active memory item whose claim is the title and whose one
//! rationale is the body, its provenance marked as legacy.

use vstd::prelude::*;

use crate::error::{ErrorCode, PlanError};
use crate::lines::{join_lines, join_lines_exec, lines_of, split_lines};
use crate::plan_kg::{opt_view, Item, Justification, JustificationView, MemoryStatus};
use crate::state::backlog::parse_md::{drop_blank_tail, drop_blank_tail_exec};
use crate::state::backlog::schema::{allocate_id, is_allocated, slug};
use crate::text::{
    chars_of, concat2, debug_quote, debug_quoted, decimal, decimal_string, is_blank, owned, push,
    push_str, seq_starts_with, slice_chars, starts_with, string_from_chars, trim, trim_chars, views,
};

use super::schema::{MemoryEntry, MemoryFile, MEMORY_SCHEMA_VERSION};

verus! {

broadcast use vstd::string::group_string_axioms;

// ----- splitting the file into entry blocks ----------------------------------

/// What a finished block contributes: itself, unless blank.
pub open spec fn entry_flushed(cur: Option<Seq<char>>) -> Seq<Seq<char>> {
    match cur {
        None => seq![],
        Some(b) => if trim(b).len() == 0 {
            seq![]
        } else {
            seq![b]
        },
    }
}

/// One line of the split: a `## ` line closes the open block and opens a
/// new one; every line while a block is open is appended to it.
pub open spec fn entry_step(st: (Seq<Seq<char>>, Option<Seq<char>>), l: Seq<char>) -> (
    Seq<Seq<char>>,
    Option<Seq<char>>,
) {
    let (done, cur) = if seq_starts_with(l, "## "@) {
        (st.0 + entry_flushed(st.1), Some(seq![]))
    } else {
        st
    };
    match cur {
        Some(b) => (done, Some(b + l + seq!['\n'])),
        None => (done, None),
    }
}

/// The entry blocks closed after the first `k` lines, and the one still
/// open.
pub open spec fn entries_upto(ls: Seq<Seq<char>>, k: int) -> (Seq<Seq<char>>, Option<Seq<char>>)
    decreases k,
{
    if k <= 0 || k > ls.len() {
        (seq![], None)
    } else {
        entry_step(entries_upto(ls, k - 1), ls[k - 1])
    }
}

/// The entry blocks of a legacy memory file: the preamble before the first
/// `## ` heading dropped, blank blocks skipped.
pub open spec fn entry_blocks(input: Seq<char>) -> Seq<Seq<char>> {
    let ls = lines_of(input);
    let st = entries_upto(ls, ls.len() as int);
    st.0 + entry_flushed(st.1)
}

// ----- one entry --------------------------------------------------------------

/// `ls` without its leading blank lines.
pub open spec fn drop_blank_head(ls: Seq<Seq<char>>) -> Seq<Seq<char>>
    decreases ls.len(),
{
    if ls.len() > 0 && trim(ls[0]).len() == 0 {
        drop_blank_head(ls.drop_first())
    } else {
        ls
    }
}

/// The title: the heading line after `## `, trimmed.
pub open spec fn entry_title(block: Seq<char>) -> Seq<char> {
    trim(lines_of(block)[0].skip(3))
}

/// The body lines: those after the heading, blank lines at either end
/// dropped.
pub open spec fn entry_body_lines(block: Seq<char>) -> Seq<Seq<char>> {
    drop_blank_tail(drop_blank_head(lines_of(block).drop_first()))
}

/// The block opens with a `## ` heading with a non-empty title and has a
/// non-blank body.
pub open spec fn entry_parses(block: Seq<char>) -> bool {
    &&& lines_of(block).len() > 0
    &&& seq_starts_with(lines_of(block)[0], "## "@)
    &&& entry_title(block).len() > 0
    &&& entry_body_lines(block).len() > 0
}

/// Why a block is refused, in the order the checks are made.
pub open spec fn entry_error(block: Seq<char>) -> Seq<char> {
    if lines_of(block).len() == 0 {
        "empty memory entry block"@
    } else if !seq_starts_with(lines_of(block)[0], "## "@) {
        "entry block does not start with `## <title>`: "@ + debug_quoted(lines_of(block)[0])
    } else if entry_title(block).len() == 0 {
        "memory entry title is empty"@
    } else {
        "memory entry "@ + debug_quoted(entry_title(block)) + " has no body"@
    }
}

/// `e` is the entry the block describes, its id allocated against
/// `existing`: an active item with the body as its one rationale, authored
/// at `legacy` in `migrate`, with no attribution.
pub open spec fn memory_entry_from_block(e: MemoryEntry, block: Seq<char>, existing: Seq<Seq<char>>) -> bool {
    &&& is_allocated(existing, slug(entry_title(block)), e.item.id@)
    &&& e.item.claim@ == entry_title(block)
    &&& e.item.justifications@.len() == 1
    &&& e.item.justifications@[0]@ == JustificationView::Rationale {
        text: join_lines(entry_body_lines(block)).push('\n'),
    }
    &&& e.item.status == MemoryStatus::Active
    &&& e.item.supersedes@.len() == 0
    &&& e.item.superseded_by is None
    &&& e.item.defeated_by is None
    &&& e.item.authored_at@ == "legacy"@
    &&& e.item.authored_in@ == "migrate"@
    &&& e.attribution is None
}

fn invalid(message: String) -> (e: PlanError)
    ensures
        e.code == ErrorCode::InvalidInput,
        e.message == message,
{
    PlanError { code: ErrorCode::InvalidInput, message }
}

fn drop_blank_head_exec(ls: &Vec<String>) -> (r: Vec<String>)
    ensures
        views(r@) == drop_blank_head(views(ls@)),
{
    let mut start: usize = 0;
    assert(views(ls@).skip(0) =~= views(ls@));
    while start < ls.len() && is_blank(chars_of(ls[start].as_str()).as_slice())
        invariant
            start <= ls@.len(),
            drop_blank_head(views(ls@).skip(start as int)) == drop_blank_head(views(ls@)),
        decreases ls.len() - start,
    {
        assert(views(ls@).skip(start as int)[0] == ls@[start as int]@);
        assert(views(ls@).skip(start as int).drop_first() =~= views(ls@).skip(start + 1));
        start += 1;
    }
    proof {
        if start < ls@.len() {
            assert(views(ls@).skip(start as int)[0] == ls@[start as int]@);
        }
    }
    let mut out: Vec<String> = Vec::new();
    let mut i: usize = start;
    while i < ls.len()
        invariant
            start <= i <= ls@.len(),
            views(out@) == views(ls@).subrange(start as int, i as int),
        decreases ls.len() - i,
    {
        let ghost before = views(out@);
        out.push(owned(ls[i].as_str()));
        assert(views(out@) =~= before.push(ls@[i as int]@));
        assert(views(out@) =~= views(ls@).subrange(start as int, i + 1));
        i += 1;
    }
    assert(views(ls@).skip(start as int) =~= views(ls@).subrange(start as int, ls@.len() as int));
    out
}

/// Parse one `## <title>` block into an entry, its id allocated against
/// `existing_ids`.
fn parse_single_entry_block(block: &str, existing_ids: &Vec<String>) -> (r: Result<MemoryEntry, PlanError>)
    requires
        existing_ids@.len() < usize::MAX,
    ensures
        r is Ok <==> entry_parses(block@),
        r matches Ok(e) ==> memory_entry_from_block(e, block@, views(existing_ids@)),
        r matches Err(e) ==> e.code == ErrorCode::InvalidInput && e.message@ == entry_error(block@),
{
    let ls = split_lines(block);
    if ls.len() == 0 {
        return Err(invalid(owned("empty memory entry block")));
    }
    assert(views(ls@)[0] == ls@[0]@);
    let first = chars_of(ls[0].as_str());
    let prefix = chars_of("## ");
    if !starts_with(first.as_slice(), prefix.as_slice()) {
        let q = debug_quote(ls[0].as_str());
        return Err(invalid(concat2("entry block does not start with `## <title>`: ", q.as_str())));
    }
    proof {
        reveal_strlit("## ");
    }
    let tail = slice_chars(first.as_slice(), 3, first.len());
    assert(tail@ =~= first@.skip(3));
    let tv = trim_chars(tail.as_slice());
    let title = string_from_chars(tv.as_slice());
    if tv.len() == 0 {
        return Err(invalid(owned("memory entry title is empty")));
    }
    let mut rest: Vec<String> = Vec::new();
    let mut i: usize = 1;
    while i < ls.len()
        invariant
            1 <= i <= ls@.len(),
            views(rest@) == views(ls@).subrange(1, i as int),
        decreases ls.len() - i,
    {
        let ghost before = views(rest@);
        rest.push(owned(ls[i].as_str()));
        assert(views(rest@) =~= before.push(ls@[i as int]@));
        assert(views(rest@) =~= views(ls@).subrange(1, i + 1));
        i += 1;
    }
    assert(views(ls@).drop_first() =~= views(ls@).subrange(1, ls@.len() as int));
    let mut body_lines = drop_blank_head_exec(&rest);
    drop_blank_tail_exec(&mut body_lines);
    if body_lines.len() == 0 {
        let q = debug_quote(title.as_str());
        let head = concat2("memory entry ", q.as_str());
        return Err(invalid(concat2(head.as_str(), " has no body")));
    }
    let mut body = join_lines_exec(body_lines.as_slice());
    push(&mut body, '\n');
    let id = allocate_id(title.as_str(), existing_ids);
    let mut justifications: Vec<Justification> = Vec::new();
    justifications.push(Justification::Rationale { text: body });
    Ok(
        MemoryEntry {
            item: Item {
                id,
                claim: title,
                justifications,
                status: MemoryStatus::Active,
                supersedes: Vec::new(),
                superseded_by: None,
                defeated_by: None,
                authored_at: owned("legacy"),
                authored_in: owned("migrate"),
            },
            attribution: None,
        },
    )
}

fn flush_entry(blocks: &mut Vec<String>, cur: Option<String>)
    ensures
        views(final(blocks)@) == views(old(blocks)@) + entry_flushed(opt_view(cur)),
{
    match cur {
        None => {
            assert(views(blocks@) + seq![] =~= views(blocks@));
        },
        Some(buf) => {
            let bc = chars_of(buf.as_str());
            if is_blank(bc.as_slice()) {
                assert(views(blocks@) + seq![] =~= views(blocks@));
            } else {
                let ghost before = views(blocks@);
                blocks.push(buf);
                assert(views(blocks@) =~= before + seq![bc@]);
            }
        },
    }
}

/// Split a legacy memory file into its entry blocks.
fn split_into_entry_blocks(input: &str) -> (r: Vec<String>)
    ensures
        views(r@) == entry_blocks(input@),
{
    let ls = split_lines(input);
    let ghost vls = views(ls@);
    let mut blocks: Vec<String> = Vec::new();
    let mut current: Option<String> = None;
    let prefix = chars_of("## ");
    let mut i: usize = 0;
    while i < ls.len()
        invariant
            vls == views(ls@),
            vls == lines_of(input@),
            prefix@ == "## "@,
            i <= ls@.len(),
            (views(blocks@), opt_view(current)) == entries_upto(vls, i as int),
        decreases ls.len() - i,
    {
        assert(vls[i as int] == ls@[i as int]@);
        let lc = chars_of(ls[i].as_str());
        let starts = starts_with(lc.as_slice(), prefix.as_slice());
        let cur = current;
        let cur2 = if starts {
            flush_entry(&mut blocks, cur);
            Some(String::new())
        } else {
            cur
        };
        current = match cur2 {
            Some(b) => {
                let mut b = b;
                push_str(&mut b, ls[i].as_str());
                push(&mut b, '\n');
                Some(b)
            },
            None => None,
        };
        i += 1;
    }
    flush_entry(&mut blocks, current);
    blocks
}

/// The ids of the entries, by view.
pub open spec fn memory_ids(items: Seq<MemoryEntry>) -> Seq<Seq<char>> {
    items.map_values(|e: MemoryEntry| e.item.id@)
}

/// Parse a legacy `memory.md` file into a typed memory file. Ids are
/// allocated in file order, each against the ids already allocated; the
/// first block that does not parse refuses the whole file, naming the
/// block's position.
pub fn parse_memory_markdown(input: &str) -> (r: Result<MemoryFile, PlanError>)
    ensures
        r is Ok <==> forall|k: int| 0 <= k < entry_blocks(input@).len() ==> entry_parses(#[trigger] entry_blocks(input@)[k]),
        r matches Ok(f) ==> {
            &&& f.schema_version == MEMORY_SCHEMA_VERSION
            &&& f.items@.len() == entry_blocks(input@).len()
            &&& forall|k: int|
                0 <= k < f.items@.len() ==> memory_entry_from_block(
                    #[trigger] f.items@[k],
                    entry_blocks(input@)[k],
                    memory_ids(f.items@.take(k)),
                )
        },
        r matches Err(e) ==> e.code == ErrorCode::InvalidInput && exists|k: int|
            0 <= k < entry_blocks(input@).len() && !entry_parses(#[trigger] entry_blocks(input@)[k])
                && (forall|j: int| 0 <= j < k ==> entry_parses(#[trigger] entry_blocks(input@)[j]))
                && e.message@ == "failed to parse memory entry #"@ + decimal((k + 1) as nat) + ": "@
                + entry_error(entry_blocks(input@)[k]),
{
    let blocks = split_into_entry_blocks(input);
    let ghost bs = entry_blocks(input@);
    let mut items: Vec<MemoryEntry> = Vec::new();
    let mut existing: Vec<String> = Vec::new();
    let mut k: usize = 0;
    while k < blocks.len()
        invariant
            views(blocks@) == bs,
            bs == entry_blocks(input@),
            k <= blocks@.len(),
            items@.len() == k,
            existing@.len() == k,
            views(existing@) == memory_ids(items@),
            forall|j: int| 0 <= j < k ==> entry_parses(#[trigger] bs[j]),
            forall|j: int|
                0 <= j < k ==> memory_entry_from_block(#[trigger] items@[j], bs[j], memory_ids(items@.take(j))),
        decreases blocks.len() - k,
    {
        assert(bs[k as int] == blocks@[k as int]@);
        match parse_single_entry_block(blocks[k].as_str(), &existing) {
            Ok(entry) => {
                let ghost before = items@;
                let ghost before_ex = existing@;
                let idc = owned(entry.item.id.as_str());
                items.push(entry);
                existing.push(idc);
                proof {
                    assert(items@.last().item.id@ == idc@);
                    assert(views(existing@) =~= views(before_ex).push(idc@));
                    assert(memory_ids(items@) =~= memory_ids(before).push(idc@));
                    assert(items@.take(k as int) =~= before);
                    assert forall|j: int| 0 <= j < k + 1 implies memory_entry_from_block(
                        #[trigger] items@[j],
                        bs[j],
                        memory_ids(items@.take(j)),
                    ) by {
                        assert(items@.take(j) =~= before.take(j));
                    }
                }
            },
            Err(e) => {
                let num = decimal_string((k + 1) as u64);
                let head = concat2("failed to parse memory entry #", num.as_str());
                let mut msg = concat2(head.as_str(), ": ");
                push_str(&mut msg, e.message.as_str());
                return Err(invalid(msg));
            },
        }
        k += 1;
    }
    Ok(MemoryFile { schema_version: MEMORY_SCHEMA_VERSION, items })
}

} // verus!
