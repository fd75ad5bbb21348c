//! Parser for the legacy `backlog.md` prose format, used once when a plan
//! is migrated to the typed layout.
//!
//! A task starts at a `### <title>` line; `**Category:**`, `**Status:**`
//! and `**Dependencies:**` lines follow, then `**Description:**` and
//! `**Results:**` sections and an optional `[HANDOFF]` note. The legacy
//! status words map onto `BacklogStatus`: `not_started`, `in_progress` and
//! `active` become `Active`; `done`, `blocked`, `defeated` and
//! `superseded` keep their meaning. Anything else is refused rather than
//! guessed at.

use vstd::prelude::*;

use crate::error::{ErrorCode, PlanError};
use crate::lines::{
    join_lines, join_lines_exec, lines_of, split_chars, split_lines, split_on, strip_prefix_all,
    strip_prefix_all_exec, trim_end_char, trim_end_char_exec, trim_start_char, trim_start_char_exec,
    char_views,
};
use crate::plan_kg::{BacklogStatus, Item, Justification, JustificationView, opt_view};
use crate::text::{
    chars_eq, chars_of, concat2, owned, decimal_string, find_from, occurs_at, push, push_str, seq_contains,
    seq_starts_with, slice_chars, starts_with, string_from_chars, trim, trim_chars, trim_end,
    trim_start, trim_bounds, views, is_blank,
};
use super::schema::{
    allocate_id, is_allocated, slug, slug_from_title, BacklogEntry, BacklogFile,
    BACKLOG_SCHEMA_VERSION,
};

verus! {

broadcast use vstd::string::group_string_axioms;

// ----- field vocabulary ----------------------------------------------------

/// The status a legacy status word stands for.
pub open spec fn legacy_status(s: Seq<char>) -> Option<BacklogStatus> {
    if s == "not_started"@ || s == "in_progress"@ || s == "active"@ {
        Some(BacklogStatus::Active)
    } else if s == "done"@ {
        Some(BacklogStatus::Done)
    } else if s == "blocked"@ {
        Some(BacklogStatus::Blocked)
    } else if s == "defeated"@ {
        Some(BacklogStatus::Defeated)
    } else if s == "superseded"@ {
        Some(BacklogStatus::Superseded)
    } else {
        None
    }
}

/// A field value with surrounding whitespace and backticks removed.
pub open spec fn strip_backticks(v: Seq<char>) -> Seq<char> {
    trim_end_char(trim_start_char(trim(v), '`'), '`')
}

/// `i` is the first index of `c` in `s`.
pub open spec fn is_first_char(s: Seq<char>, c: char, i: int) -> bool {
    0 <= i < s.len() && s[i] == c && forall|k: int| 0 <= k < i ==> s[k] != c
}

/// A status value split at its first `(`: the status word and, when a
/// parenthesis follows, the reason inside it (an optional `reason:` label
/// dropped).
pub open spec fn split_blocked_reason(raw: Seq<char>) -> (Seq<char>, Option<Seq<char>>) {
    if exists|i: int| is_first_char(raw, '(', i) {
        let i = choose|i: int| is_first_char(raw, '(', i);
        let reason0 = trim(trim_end_char(raw.skip(i + 1), ')'));
        let reason = if seq_starts_with(reason0, "reason:"@) {
            trim(reason0.skip("reason:"@.len() as int))
        } else {
            trim(reason0)
        };
        (trim(raw.take(i)), Some(reason))
    } else {
        (trim(raw), None)
    }
}

/// Which header field a trimmed line introduces: 1 category, 2 status,
/// 3 dependencies, 0 none.
pub open spec fn field_kind(t: Seq<char>) -> int {
    if seq_starts_with(t, "**Category:**"@) {
        1
    } else if seq_starts_with(t, "**Status:**"@) {
        2
    } else if seq_starts_with(t, "**Dependencies:**"@) {
        3
    } else {
        0
    }
}

/// The category a `**Category:**` line gives.
pub open spec fn category_of(t: Seq<char>) -> Seq<char> {
    strip_backticks(trim(t.skip("**Category:**"@.len() as int)))
}

/// The status text a `**Status:**` line gives, backticks removed.
pub open spec fn status_raw(t: Seq<char>) -> Seq<char> {
    strip_backticks(trim(t.skip("**Status:**"@.len() as int)))
}

/// The status a `**Status:**` line names, legacy words mapped.
pub open spec fn status_of(t: Seq<char>) -> Option<BacklogStatus> {
    legacy_status(split_blocked_reason(status_raw(t)).0)
}

/// The blocked reason a `**Status:**` line carries, if any (empty when none).
pub open spec fn reason_of(t: Seq<char>) -> Seq<char> {
    match split_blocked_reason(status_raw(t)).1 {
        Some(r) => r,
        None => seq![],
    }
}

/// The text after `**Dependencies:**`, trimmed.
pub open spec fn deps_raw(t: Seq<char>) -> Seq<char> {
    trim(t.skip("**Dependencies:**"@.len() as int))
}

/// The dependency line names dependencies (it is neither empty nor `none`).
pub open spec fn deps_given(t: Seq<char>) -> bool {
    deps_raw(t) != "none"@ && deps_raw(t).len() > 0
}

/// Comma-separated titles turned into ids, empty slugs dropped.
pub open spec fn dep_list(pieces: Seq<Seq<char>>) -> Seq<Seq<char>>
    decreases pieces.len(),
{
    if pieces.len() == 0 {
        seq![]
    } else {
        let s = slug(trim(pieces.last()));
        dep_list(pieces.drop_last()) + if s.len() > 0 {
            seq![s]
        } else {
            seq![]
        }
    }
}

/// The dependency ids a `**Dependencies:**` line names.
pub open spec fn dep_ids(t: Seq<char>) -> Seq<Seq<char>> {
    dep_list(split_on(deps_raw(t), ','))
}

// ----- the header region ----------------------------------------------------

/// The line is blank or a header field.
pub open spec fn is_header_line(l: Seq<char>) -> bool {
    trim(l).len() == 0 || field_kind(trim(l)) != 0
}

/// Index of the first line at or after `from` that ends the header region.
pub open spec fn header_end(ls: Seq<Seq<char>>, from: int) -> int
    decreases ls.len() - from,
{
    if from < 0 || from >= ls.len() {
        ls.len() as int
    } else if is_header_line(ls[from]) {
        header_end(ls, from + 1)
    } else {
        from
    }
}

/// The value of the last category line among the first `k` lines.
pub open spec fn last_category(ls: Seq<Seq<char>>, k: int) -> Option<Seq<char>>
    decreases k,
{
    if k <= 0 || k > ls.len() {
        None
    } else if field_kind(trim(ls[k - 1])) == 1 {
        Some(category_of(trim(ls[k - 1])))
    } else {
        last_category(ls, k - 1)
    }
}

/// Some status line among the first `k` lines has an unknown status word.
pub open spec fn bad_status(ls: Seq<Seq<char>>, k: int) -> bool
    decreases k,
{
    if k <= 0 || k > ls.len() {
        false
    } else {
        (field_kind(trim(ls[k - 1])) == 2 && status_of(trim(ls[k - 1])) is None) || bad_status(
            ls,
            k - 1,
        )
    }
}

/// The status of the last status line among the first `k` lines.
pub open spec fn last_status(ls: Seq<Seq<char>>, k: int) -> Option<BacklogStatus>
    decreases k,
{
    if k <= 0 || k > ls.len() {
        None
    } else if field_kind(trim(ls[k - 1])) == 2 {
        status_of(trim(ls[k - 1]))
    } else {
        last_status(ls, k - 1)
    }
}

/// The reason of the last `blocked` status line among the first `k` lines.
pub open spec fn last_blocked_reason(ls: Seq<Seq<char>>, k: int) -> Option<Seq<char>>
    decreases k,
{
    if k <= 0 || k > ls.len() {
        None
    } else if field_kind(trim(ls[k - 1])) == 2 && status_of(trim(ls[k - 1])) == Some(
        BacklogStatus::Blocked,
    ) {
        Some(reason_of(trim(ls[k - 1])))
    } else {
        last_blocked_reason(ls, k - 1)
    }
}

/// The ids of the last dependency line that names any, among the first `k`.
pub open spec fn last_deps(ls: Seq<Seq<char>>, k: int) -> Seq<Seq<char>>
    decreases k,
{
    if k <= 0 || k > ls.len() {
        seq![]
    } else if field_kind(trim(ls[k - 1])) == 3 && deps_given(trim(ls[k - 1])) {
        dep_ids(trim(ls[k - 1]))
    } else {
        last_deps(ls, k - 1)
    }
}

proof fn lemma_header_end_bounds(ls: Seq<Seq<char>>, from: int)
    requires
        0 <= from <= ls.len(),
    ensures
        from <= header_end(ls, from) <= ls.len(),
    decreases ls.len() - from,
{
    if from < ls.len() && is_header_line(ls[from]) {
        lemma_header_end_bounds(ls, from + 1);
    }
}

proof fn lemma_bad_status_grows(ls: Seq<Seq<char>>, k: int, k2: int)
    requires
        0 <= k <= k2 <= ls.len(),
        bad_status(ls, k),
    ensures
        bad_status(ls, k2),
    decreases k2 - k,
{
    if k < k2 {
        lemma_bad_status_grows(ls, k, k2 - 1);
    }
}

// ----- sections -----------------------------------------------------------

/// The line, left-trimmed, starts with `m`.
pub open spec fn marks(l: Seq<char>, m: Seq<char>) -> bool {
    seq_starts_with(trim_start(l), m)
}

/// First index at or after `from` of a line marked `m` (or the length).
pub open spec fn first_mark(ls: Seq<Seq<char>>, m: Seq<char>, from: int) -> int
    decreases ls.len() - from,
{
    if from < 0 || from >= ls.len() {
        ls.len() as int
    } else if marks(ls[from], m) {
        from
    } else {
        first_mark(ls, m, from + 1)
    }
}

/// First index at or after `from` of a line marked `t1` or `t2`.
pub open spec fn first_term(ls: Seq<Seq<char>>, t1: Seq<char>, t2: Seq<char>, from: int) -> int
    decreases ls.len() - from,
{
    if from < 0 || from >= ls.len() {
        ls.len() as int
    } else if marks(ls[from], t1) || marks(ls[from], t2) {
        from
    } else {
        first_term(ls, t1, t2, from + 1)
    }
}

/// The text under the first line marked `m`, up to the next line marked
/// `t1` or `t2`, leading newlines dropped; empty when no line is marked.
pub open spec fn section_body(ls: Seq<Seq<char>>, m: Seq<char>, t1: Seq<char>, t2: Seq<char>) -> Seq<char> {
    let s = first_mark(ls, m, 0);
    if s >= ls.len() {
        seq![]
    } else {
        trim_start_char(join_lines(ls.subrange(s + 1, first_term(ls, t1, t2, s + 1))), '\n')
    }
}

/// The lines from the terminator of that section on (all lines when no
/// line is marked).
pub open spec fn section_rest(ls: Seq<Seq<char>>, m: Seq<char>, t1: Seq<char>, t2: Seq<char>) -> Seq<Seq<char>> {
    let s = first_mark(ls, m, 0);
    if s >= ls.len() {
        ls
    } else {
        ls.skip(first_term(ls, t1, t2, s + 1))
    }
}

// ----- one task block ----------------------------------------------------------

/// The lines of a block after its title line.
pub open spec fn block_rest(block: Seq<char>) -> Seq<Seq<char>> {
    lines_of(block).skip(1)
}

/// The title: the first line after `### `, trimmed.
pub open spec fn block_title(block: Seq<char>) -> Seq<char> {
    trim(lines_of(block)[0].skip("### "@.len() as int))
}

/// The block opens with a `### ` line carrying a non-empty title.
pub open spec fn title_ok(block: Seq<char>) -> bool {
    &&& lines_of(block).len() > 0
    &&& seq_starts_with(lines_of(block)[0], "### "@)
    &&& block_title(block).len() > 0
}

/// Where the header fields end, within `block_rest`.
pub open spec fn block_end(block: Seq<char>) -> int {
    header_end(block_rest(block), 0)
}

/// The block is a task: a title, only known status words, and both a
/// status and a category.
pub open spec fn block_parses(block: Seq<char>) -> bool {
    let rest = block_rest(block);
    let end = block_end(block);
    &&& title_ok(block)
    &&& !bad_status(rest, end)
    &&& last_status(rest, end) is Some
    &&& last_category(rest, end) is Some
}

/// The lines after the header fields.
pub open spec fn block_body(block: Seq<char>) -> Seq<Seq<char>> {
    block_rest(block).skip(block_end(block))
}

/// The description: the text of the `**Description:**` section, ending
/// in one newline.
pub open spec fn block_description(block: Seq<char>) -> Seq<char> {
    trim_end_char(
        section_body(block_body(block), "**Description:**"@, "**Results:**"@, "[HANDOFF]"@),
        '\n',
    ).push('\n')
}

/// The lines after the description section.
pub open spec fn after_description(block: Seq<char>) -> Seq<Seq<char>> {
    section_rest(block_body(block), "**Description:**"@, "**Results:**"@, "[HANDOFF]"@)
}

/// The results text: none when the section is blank or `_pending_`.
pub open spec fn block_results(block: Seq<char>) -> Option<Seq<char>> {
    let rb = section_body(after_description(block), "**Results:**"@, "[HANDOFF]"@, "[HANDOFF]"@);
    let b = trim_end_char(rb, '\n');
    if trim(rb).len() == 0 || b == "_pending_"@ {
        None
    } else {
        Some(b.push('\n'))
    }
}

/// `i` is the first index where `p` occurs in `s`.
pub open spec fn first_occurrence(s: Seq<char>, p: Seq<char>, i: int) -> bool {
    occurs_at(s, p, i) && forall|k: int| 0 <= k < i ==> !occurs_at(s, p, k)
}

/// The hand-off note: what follows the first `[HANDOFF]` marker after the
/// results section, trimmed.
pub open spec fn block_handoff(block: Seq<char>) -> Option<Seq<char>> {
    let rest = section_rest(after_description(block), "**Results:**"@, "[HANDOFF]"@, "[HANDOFF]"@);
    let j = join_lines(rest);
    if rest.len() > 0 && exists|i: int| first_occurrence(j, "[HANDOFF]"@, i) {
        let i = choose|i: int| first_occurrence(j, "[HANDOFF]"@, i);
        Some(trim(strip_prefix_all(j.skip(i), "[HANDOFF]"@)).push('\n'))
    } else {
        None
    }
}

/// `e` is the entry the block describes, its id allocated against
/// `existing`.
pub open spec fn entry_from_block(e: BacklogEntry, block: Seq<char>, existing: Seq<Seq<char>>) -> bool {
    let rest = block_rest(block);
    let end = block_end(block);
    &&& is_allocated(existing, slug(block_title(block)), e.item.id@)
    &&& e.item.claim@ == block_title(block)
    &&& e.item.justifications@.len() == 1
    &&& e.item.justifications@[0]@ == JustificationView::Rationale { text: block_description(block) }
    &&& Some(e.item.status) == last_status(rest, end)
    &&& e.item.supersedes@.len() == 0
    &&& e.item.superseded_by is None
    &&& e.item.defeated_by is None
    &&& e.item.authored_at@ == "migrated"@
    &&& e.item.authored_in@ == "migrate"@
    &&& Some(e.category@) == last_category(rest, end)
    &&& opt_view(e.blocked_reason) == last_blocked_reason(rest, end)
    &&& views(e.dependencies@) == last_deps(rest, end)
    &&& opt_view(e.results) == block_results(block)
    &&& opt_view(e.handoff) == block_handoff(block)
}

// ----- splitting the file into blocks ------------------------------------------

/// `ls` without its trailing blank lines.
pub open spec fn drop_blank_tail(ls: Seq<Seq<char>>) -> Seq<Seq<char>>
    decreases ls.len(),
{
    if ls.len() > 0 && trim(ls.last()).len() == 0 {
        drop_blank_tail(ls.drop_last())
    } else {
        ls
    }
}

/// A block with its trailing blank lines and one trailing `---` separator
/// line removed, re-terminated by a single newline.
pub open spec fn normalise_block(b: Seq<char>) -> Seq<char> {
    let ls = drop_blank_tail(lines_of(b));
    let ls2 = if ls.len() > 0 && trim(ls.last()) == "---"@ {
        ls.drop_last()
    } else {
        ls
    };
    join_lines(ls2).push('\n')
}

/// What a finished block contributes: its normalised text, unless blank.
pub open spec fn flushed(cur: Option<Seq<char>>) -> Seq<Seq<char>> {
    match cur {
        None => seq![],
        Some(b) => if trim(normalise_block(b)).len() == 0 {
            seq![]
        } else {
            seq![normalise_block(b)]
        },
    }
}

/// One line of the split: a `### ` line closes the open block and opens a
/// new one; every line while a block is open is appended to it.
pub open spec fn block_step(st: (Seq<Seq<char>>, Option<Seq<char>>), l: Seq<char>) -> (
    Seq<Seq<char>>,
    Option<Seq<char>>,
) {
    let (done, cur) = if seq_starts_with(l, "### "@) {
        (st.0 + flushed(st.1), Some(seq![]))
    } else {
        st
    };
    match cur {
        Some(b) => (done, Some(b + l + seq!['\n'])),
        None => (done, None),
    }
}

/// The task blocks closed after the first `k` lines, and the one still
/// open.
pub open spec fn blocks_upto(ls: Seq<Seq<char>>, k: int) -> (Seq<Seq<char>>, Option<Seq<char>>)
    decreases k,
{
    if k <= 0 || k > ls.len() {
        (seq![], None)
    } else {
        block_step(blocks_upto(ls, k - 1), ls[k - 1])
    }
}

/// The task blocks of a legacy backlog file: lines before the first `### `
/// heading are dropped, and blank blocks are skipped.
pub open spec fn task_blocks(input: Seq<char>) -> Seq<Seq<char>> {
    let ls = lines_of(input);
    let st = blocks_upto(ls, ls.len() as int);
    st.0 + flushed(st.1)
}

// ----- exec helpers -----------------------------------------------------------

fn strip_backticks_exec(v: &[char]) -> (r: Vec<char>)
    ensures
        r@ == strip_backticks(v@),
{
    let t = trim_chars(v);
    let a = trim_start_char_exec(t.as_slice(), '`');
    trim_end_char_exec(a.as_slice(), '`')
}

fn split_blocked_reason_exec(raw: &[char]) -> (r: (Vec<char>, Option<Vec<char>>))
    ensures
        r.0@ == split_blocked_reason(raw@).0,
        match r.1 {
            Some(v) => split_blocked_reason(raw@).1 == Some(v@),
            None => split_blocked_reason(raw@).1 is None,
        },
{
    let mut i: usize = 0;
    while i < raw.len() && raw[i] != '('
        invariant
            i <= raw@.len(),
            forall|k: int| 0 <= k < i ==> raw@[k] != '(',
        decreases raw.len() - i,
    {
        i += 1;
    }
    if i == raw.len() {
        assert(!exists|j: int| is_first_char(raw@, '(', j));
        return (trim_chars(raw), None);
    }
    proof {
        assert(is_first_char(raw@, '(', i as int));
        let c = choose|j: int| is_first_char(raw@, '(', j);
        assert(c == i) by {
            if c < i {
                assert(raw@[c] != '(');
            } else if c > i {
                assert(raw@[i as int] != '(');
            }
        }
    }
    let head = slice_chars(raw, 0, i);
    assert(head@ =~= raw@.take(i as int));
    let rest = slice_chars(raw, i + 1, raw.len());
    assert(rest@ =~= raw@.skip(i + 1));
    let r0 = trim_end_char_exec(rest.as_slice(), ')');
    let reason0 = trim_chars(r0.as_slice());
    let label = chars_of("reason:");
    let reason = if starts_with(reason0.as_slice(), label.as_slice()) {
        let tail = slice_chars(reason0.as_slice(), label.len(), reason0.len());
        assert(tail@ =~= reason0@.skip("reason:"@.len() as int));
        trim_chars(tail.as_slice())
    } else {
        trim_chars(reason0.as_slice())
    };
    (trim_chars(head.as_slice()), Some(reason))
}

fn word_is(s: &[char], w: &str) -> (r: bool)
    ensures
        r == (s@ == w@),
{
    let cw = chars_of(w);
    chars_eq(s, cw.as_slice())
}

fn parse_legacy_status(s: &[char]) -> (r: Option<BacklogStatus>)
    ensures
        r == legacy_status(s@),
{
    if word_is(s, "not_started") || word_is(s, "in_progress") || word_is(s, "active") {
        Some(BacklogStatus::Active)
    } else if word_is(s, "done") {
        Some(BacklogStatus::Done)
    } else if word_is(s, "blocked") {
        Some(BacklogStatus::Blocked)
    } else if word_is(s, "defeated") {
        Some(BacklogStatus::Defeated)
    } else if word_is(s, "superseded") {
        Some(BacklogStatus::Superseded)
    } else {
        None
    }
}

fn has_prefix(s: &[char], p: &str) -> (r: bool)
    ensures
        r == seq_starts_with(s@, p@),
{
    let cp = chars_of(p);
    starts_with(s, cp.as_slice())
}

fn field_kind_exec(t: &[char]) -> (r: u8)
    ensures
        r as int == field_kind(t@),
{
    if has_prefix(t, "**Category:**") {
        1
    } else if has_prefix(t, "**Status:**") {
        2
    } else if has_prefix(t, "**Dependencies:**") {
        3
    } else {
        0
    }
}

/// The characters of `t` after its first `n` (a matched prefix).
fn after(t: &[char], n: usize) -> (r: Vec<char>)
    requires
        n <= t@.len(),
    ensures
        r@ == t@.skip(n as int),
{
    let r = slice_chars(t, n, t.len());
    assert(r@ =~= t@.skip(n as int));
    r
}

fn dep_ids_exec(t: &[char]) -> (r: Vec<String>)
    requires
        seq_starts_with(t@, "**Dependencies:**"@),
    ensures
        views(r@) == dep_ids(t@),
{
    let m = chars_of("**Dependencies:**");
    let v = after(t, m.len());
    let raw = trim_chars(v.as_slice());
    let pieces = split_chars(raw.as_slice(), ',');
    let ghost ps = split_on(raw@, ',');
    let mut out: Vec<String> = Vec::new();
    let mut i: usize = 0;
    assert(ps.take(0) =~= Seq::<Seq<char>>::empty());
    while i < pieces.len()
        invariant
            char_views(pieces@) == ps,
            i <= pieces@.len(),
            views(out@) == dep_list(ps.take(i as int)),
        decreases pieces.len() - i,
    {
        let tp = trim_chars(pieces[i].as_slice());
        let ts = string_from_chars(tp.as_slice());
        let sl = slug_from_title(ts.as_str());
        let ghost before = views(out@);
        proof {
            assert(pieces@[i as int]@ == ps[i as int]);
            assert(ps.take(i + 1).drop_last() =~= ps.take(i as int));
        }
        if crate::text::char_count(sl.as_str()) > 0 {
            out.push(sl);
            assert(views(out@) =~= before + seq![sl@]);
        } else {
            assert(sl@.len() == 0);
            assert(before + seq![] =~= before);
        }
        i += 1;
    }
    assert(ps.take(ps.len() as int) =~= ps);
    out
}

fn trim_start_of(s: &String) -> (r: Vec<char>)
    ensures
        r@ == trim_start(s@),
{
    let cs = chars_of(s.as_str());
    let (a, _b) = trim_bounds(cs.as_slice());
    after(cs.as_slice(), a)
}

fn marks_exec(l: &String, m: &str) -> (r: bool)
    ensures
        r == marks(l@, m@),
{
    let t = trim_start_of(l);
    has_prefix(t.as_slice(), m)
}

fn first_mark_exec(ls: &Vec<String>, m: &str, from: usize) -> (r: usize)
    requires
        from <= ls@.len(),
    ensures
        r as int == first_mark(views(ls@), m@, from as int),
{
    let ghost vs = views(ls@);
    let mut i = from;
    while i < ls.len() && !marks_exec(&ls[i], m)
        invariant
            from <= i <= ls@.len(),
            vs == views(ls@),
            first_mark(vs, m@, from as int) == first_mark(vs, m@, i as int),
        decreases ls.len() - i,
    {
        assert(vs[i as int] == ls@[i as int]@);
        i += 1;
    }
    if i < ls.len() {
        assert(vs[i as int] == ls@[i as int]@);
    }
    i
}

fn first_term_exec(ls: &Vec<String>, t1: &str, t2: &str, from: usize) -> (r: usize)
    requires
        from <= ls@.len(),
    ensures
        r as int == first_term(views(ls@), t1@, t2@, from as int),
        from <= r <= ls@.len(),
{
    let ghost vs = views(ls@);
    let mut i = from;
    while i < ls.len() && !(marks_exec(&ls[i], t1) || marks_exec(&ls[i], t2))
        invariant
            from <= i <= ls@.len(),
            vs == views(ls@),
            first_term(vs, t1@, t2@, from as int) == first_term(vs, t1@, t2@, i as int),
        decreases ls.len() - i,
    {
        assert(vs[i as int] == ls@[i as int]@);
        i += 1;
    }
    if i < ls.len() {
        assert(vs[i as int] == ls@[i as int]@);
    }
    i
}

proof fn lemma_first_mark_bounds(ls: Seq<Seq<char>>, m: Seq<char>, from: int)
    requires
        0 <= from <= ls.len(),
    ensures
        from <= first_mark(ls, m, from) <= ls.len(),
    decreases ls.len() - from,
{
    if from < ls.len() && !marks(ls[from], m) {
        lemma_first_mark_bounds(ls, m, from + 1);
    }
}

fn sub_lines(ls: &Vec<String>, a: usize, b: usize) -> (r: Vec<String>)
    requires
        a <= b <= ls@.len(),
    ensures
        views(r@) == views(ls@).subrange(a as int, b as int),
{
    let mut r: Vec<String> = Vec::new();
    let mut i = a;
    while i < b
        invariant
            a <= i <= b <= ls@.len(),
            views(r@) == views(ls@).subrange(a as int, i as int),
        decreases b - i,
    {
        let ghost before = r@;
        let x = crate::text::owned(ls[i].as_str());
        r.push(x);
        assert(views(r@) =~= views(before).push(x@));
        assert(views(ls@).subrange(a as int, i + 1) =~= views(ls@).subrange(a as int, i as int).push(
            ls@[i as int]@,
        ));
        i += 1;
    }
    r
}

/// The section under the first line marked `m`, up to a line marked `t1`
/// or `t2`, and the lines from that terminator on.
fn take_section(ls: &Vec<String>, m: &str, t1: &str, t2: &str) -> (r: (String, Vec<String>))
    ensures
        r.0@ == section_body(views(ls@), m@, t1@, t2@),
        views(r.1@) == section_rest(views(ls@), m@, t1@, t2@),
{
    let s = first_mark_exec(ls, m, 0);
    if s >= ls.len() {
        return (String::new(), sub_lines(ls, 0, ls.len()));
    }
    let e = first_term_exec(ls, t1, t2, s + 1);
    let body = sub_lines(ls, s + 1, e);
    let joined = join_lines_exec(body.as_slice());
    let jc = chars_of(joined.as_str());
    let t = trim_start_char_exec(jc.as_slice(), '\n');
    let rest = sub_lines(ls, e, ls.len());
    assert(views(ls@).subrange(e as int, ls@.len() as int) =~= views(ls@).skip(e as int));
    (string_from_chars(t.as_slice()), rest)
}

fn input_error(msg: &str) -> (e: PlanError)
    ensures
        e.code == ErrorCode::InvalidInput,
        e.message@ == msg@,
{
    PlanError { code: ErrorCode::InvalidInput, message: msg.to_owned() }
}

fn handoff_of(rest: &Vec<String>) -> (r: Option<String>)
    ensures
        opt_view(r) == ({
            let j = join_lines(views(rest@));
            if rest@.len() > 0 && exists|i: int| first_occurrence(j, "[HANDOFF]"@, i) {
                let i = choose|i: int| first_occurrence(j, "[HANDOFF]"@, i);
                Some(trim(strip_prefix_all(j.skip(i), "[HANDOFF]"@)).push('\n'))
            } else {
                None
            }
        }),
{
    if rest.len() == 0 {
        return None;
    }
    let joined = join_lines_exec(rest.as_slice());
    let jc = chars_of(joined.as_str());
    let marker = chars_of("[HANDOFF]");
    let ghost j = join_lines(views(rest@));
    match find_from(jc.as_slice(), marker.as_slice(), 0) {
        Some(idx) => {
            proof {
                assert(first_occurrence(j, "[HANDOFF]"@, idx as int));
                let c = choose|i: int| first_occurrence(j, "[HANDOFF]"@, i);
                assert(c == idx) by {
                    if c < idx {
                        assert(!occurs_at(j, "[HANDOFF]"@, c));
                    } else if c > idx {
                        assert(!occurs_at(j, "[HANDOFF]"@, idx as int));
                    }
                }
            }
            proof {
                reveal_strlit("[HANDOFF]");
            }
            let tail = after(jc.as_slice(), idx);
            let stripped = strip_prefix_all_exec(tail.as_slice(), marker.as_slice());
            let t = trim_chars(stripped.as_slice());
            let mut out = string_from_chars(t.as_slice());
            push(&mut out, '\n');
            Some(out)
        },
        None => {
            assert(!exists|i: int| first_occurrence(j, "[HANDOFF]"@, i));
            None
        },
    }
}

fn results_of(rb: &String) -> (r: Option<String>)
    ensures
        opt_view(r) == ({
            let b = trim_end_char(rb@, '\n');
            if trim(rb@).len() == 0 || b == "_pending_"@ {
                None
            } else {
                Some(b.push('\n'))
            }
        }),
{
    let rc = chars_of(rb.as_str());
    if is_blank(rc.as_slice()) {
        return None;
    }
    let b = trim_end_char_exec(rc.as_slice(), '\n');
    if word_is(b.as_slice(), "_pending_") {
        return None;
    }
    let mut out = string_from_chars(b.as_slice());
    push(&mut out, '\n');
    Some(out)
}

/// Parse one task block; ids are allocated against `existing_ids`.
fn parse_single_task_block(block: &str, existing_ids: &Vec<String>) -> (r: Result<
    BacklogEntry,
    PlanError,
>)
    requires
        existing_ids@.len() < usize::MAX,
    ensures
        r is Ok <==> block_parses(block@),
        r matches Ok(e) ==> entry_from_block(e, block@, views(existing_ids@)),
        r matches Err(e) ==> e.code == ErrorCode::InvalidInput,
        lines_of(block@).len() == 0 ==> (r matches Err(e) && e.message@ == "empty task block"@),
        lines_of(block@).len() > 0 && !seq_starts_with(lines_of(block@)[0], "### "@) ==> (r matches Err(e)
            && e.message@ == "task block does not start with `### <title>`: "@ + crate::text::debug_quoted(
            lines_of(block@)[0],
        )),
        lines_of(block@).len() > 0 && seq_starts_with(lines_of(block@)[0], "### "@) && block_title(block@).len()
            == 0 ==> (r matches Err(e) && e.message@ == "task title is empty"@),
        title_ok(block@) && !bad_status(block_rest(block@), block_end(block@)) && last_status(
            block_rest(block@),
            block_end(block@),
        ) is None ==> (r matches Err(e) && e.message@ == "missing **Status:** field"@),
        title_ok(block@) && !bad_status(block_rest(block@), block_end(block@)) && last_status(
            block_rest(block@),
            block_end(block@),
        ) is Some && last_category(block_rest(block@), block_end(block@)) is None ==> (r matches Err(e)
            && e.message@ == "missing **Category:** field"@),
{
    let ls = split_lines(block);
    let ghost vls = lines_of(block@);
    if ls.len() == 0 {
        return Err(input_error("empty task block"));
    }
    assert(views(ls@)[0] == ls@[0]@);
    let first = chars_of(ls[0].as_str());
    let prefix = chars_of("### ");
    if !starts_with(first.as_slice(), prefix.as_slice()) {
        return Err(
            PlanError {
                code: ErrorCode::InvalidInput,
                message: crate::text::concat2(
                    "task block does not start with `### <title>`: ",
                    crate::text::debug_quote(ls[0].as_str()).as_str(),
                ),
            },
        );
    }
    let tv = after(first.as_slice(), prefix.len());
    let title_chars = trim_chars(tv.as_slice());
    if title_chars.len() == 0 {
        return Err(input_error("task title is empty"));
    }
    let title = string_from_chars(title_chars.as_slice());
    let id = allocate_id(title.as_str(), existing_ids);
    let rest = sub_lines(&ls, 1, ls.len());
    let ghost vr = views(rest@);
    assert(vr =~= block_rest(block@));
    let mut category: Option<String> = None;
    let mut status: Option<BacklogStatus> = None;
    let mut deps: Vec<String> = Vec::new();
    let mut blocked_reason: Option<String> = None;
    let mut cursor: usize = 0;
    loop
        invariant
            vr == views(rest@),
            vr == block_rest(block@),
            title_ok(block@),
            cursor <= rest@.len(),
            header_end(vr, 0) == header_end(vr, cursor as int),
            opt_view(category) == last_category(vr, cursor as int),
            status == last_status(vr, cursor as int),
            !bad_status(vr, cursor as int),
            opt_view(blocked_reason) == last_blocked_reason(vr, cursor as int),
            views(deps@) == last_deps(vr, cursor as int),
        ensures
            cursor as int == header_end(vr, 0),
        decreases rest.len() - cursor,
    {
        if cursor >= rest.len() {
            break;
        }
        assert(vr[cursor as int] == rest@[cursor as int]@);
        let lc = chars_of(rest[cursor].as_str());
        let t = trim_chars(lc.as_slice());
        if t.len() == 0 {
            proof {
                reveal_strlit("**Category:**");
                reveal_strlit("**Status:**");
                reveal_strlit("**Dependencies:**");
                assert(field_kind(t@) == 0);
            }
            cursor += 1;
            continue;
        }
        let k = field_kind_exec(t.as_slice());
        if k == 1 {
            let m = chars_of("**Category:**");
            let v = after(t.as_slice(), m.len());
            let tv = trim_chars(v.as_slice());
            let c = strip_backticks_exec(tv.as_slice());
            category = Some(string_from_chars(c.as_slice()));
        } else if k == 2 {
            let m = chars_of("**Status:**");
            let v = after(t.as_slice(), m.len());
            let tv = trim_chars(v.as_slice());
            let raw = strip_backticks_exec(tv.as_slice());
            let (sv, reason) = split_blocked_reason_exec(raw.as_slice());
            match parse_legacy_status(sv.as_slice()) {
                None => {
                    proof {
                        assert(bad_status(vr, cursor + 1));
                        assert(header_end(vr, cursor as int) == header_end(vr, cursor + 1));
                        lemma_header_end_bounds(vr, cursor + 1);
                        lemma_bad_status_grows(vr, cursor + 1, header_end(vr, 0));
                    }
                    let word = string_from_chars(sv.as_slice());
                    return Err(
                        PlanError {
                            code: ErrorCode::InvalidInput,
                            message: crate::error::quoted_message(
                                "invalid status value: ",
                                word.as_str(),
                                "",
                            ),
                        },
                    );
                },
                Some(st) => {
                    status = Some(st);
                    match st {
                        BacklogStatus::Blocked => {
                            let text = match reason {
                                Some(rv) => string_from_chars(rv.as_slice()),
                                None => String::new(),
                            };
                            blocked_reason = Some(text);
                        },
                        _ => {},
                    }
                },
            }
        } else if k == 3 {
            let m = chars_of("**Dependencies:**");
            let v = after(t.as_slice(), m.len());
            let raw = trim_chars(v.as_slice());
            if !word_is(raw.as_slice(), "none") && raw.len() > 0 {
                deps = dep_ids_exec(t.as_slice());
            }
        } else {
            break;
        }
        cursor += 1;
    }
    let body = sub_lines(&rest, cursor, rest.len());
    assert(views(body@) =~= block_body(block@));
    let (desc, after_desc) = take_section(&body, "**Description:**", "**Results:**", "[HANDOFF]");
    let dc = chars_of(desc.as_str());
    let dt = trim_end_char_exec(dc.as_slice(), '\n');
    let mut description = string_from_chars(dt.as_slice());
    push(&mut description, '\n');
    let (rb, after_results) = take_section(&after_desc, "**Results:**", "[HANDOFF]", "[HANDOFF]");
    let results = results_of(&rb);
    let handoff = handoff_of(&after_results);
    let status = match status {
        Some(s) => s,
        None => return Err(input_error("missing **Status:** field")),
    };
    let category = match category {
        Some(c) => c,
        None => return Err(input_error("missing **Category:** field")),
    };
    let mut justifications: Vec<Justification> = Vec::new();
    justifications.push(Justification::Rationale { text: description });
    let e = BacklogEntry {
        item: Item {
            id,
            claim: title,
            justifications,
            status,
            supersedes: Vec::new(),
            superseded_by: None,
            defeated_by: None,
            authored_at: "migrated".to_owned(),
            authored_in: "migrate".to_owned(),
        },
        category,
        blocked_reason,
        dependencies: deps,
        results,
        handoff,
    };
    Ok(e)
}

pub(crate) fn drop_blank_tail_exec(ls: &mut Vec<String>)
    ensures
        views(final(ls)@) == drop_blank_tail(views(old(ls)@)),
{
    loop
        invariant
            drop_blank_tail(views(ls@)) == drop_blank_tail(views(old(ls)@)),
        ensures
            views(ls@) == drop_blank_tail(views(old(ls)@)),
        decreases ls.len(),
    {
        if ls.len() == 0 {
            return;
        }
        let n = ls.len();
        let lc = chars_of(ls[n - 1].as_str());
        assert(views(ls@).last() == ls@[n - 1]@);
        if !is_blank(lc.as_slice()) {
            return;
        }
        let ghost before = views(ls@);
        ls.pop();
        assert(views(ls@) =~= before.drop_last());
    }
}

fn normalise_block_exec(b: &str) -> (r: String)
    ensures
        r@ == normalise_block(b@),
{
    let mut ls = split_lines(b);
    drop_blank_tail_exec(&mut ls);
    let n = ls.len();
    if n > 0 {
        assert(views(ls@).last() == ls@[n - 1]@);
        let lc = chars_of(ls[n - 1].as_str());
        let t = trim_chars(lc.as_slice());
        if word_is(t.as_slice(), "---") {
            let ghost before = views(ls@);
            ls.pop();
            assert(views(ls@) =~= before.drop_last());
        }
    }
    let mut out = join_lines_exec(ls.as_slice());
    push(&mut out, '\n');
    out
}

fn flush_into(blocks: &mut Vec<String>, cur: Option<String>)
    ensures
        views(final(blocks)@) == views(old(blocks)@) + flushed(opt_view(cur)),
{
    match cur {
        None => {
            assert(views(blocks@) + seq![] =~= views(blocks@));
        },
        Some(buf) => {
            let n = normalise_block_exec(buf.as_str());
            let nc = chars_of(n.as_str());
            if is_blank(nc.as_slice()) {
                assert(views(blocks@) + seq![] =~= views(blocks@));
            } else {
                let ghost before = views(blocks@);
                blocks.push(n);
                assert(views(blocks@) =~= before + seq![n@]);
            }
        },
    }
}

/// Split a legacy backlog file into its normalised task blocks.
fn split_into_task_blocks(input: &str) -> (r: Vec<String>)
    ensures
        views(r@) == task_blocks(input@),
{
    let ls = split_lines(input);
    let ghost vls = views(ls@);
    let mut blocks: Vec<String> = Vec::new();
    let mut current: Option<String> = None;
    let mut i: usize = 0;
    while i < ls.len()
        invariant
            vls == views(ls@),
            vls == lines_of(input@),
            i <= ls@.len(),
            (views(blocks@), opt_view(current)) == blocks_upto(vls, i as int),
        decreases ls.len() - i,
    {
        assert(vls[i as int] == ls@[i as int]@);
        let lc = chars_of(ls[i].as_str());
        let starts = has_prefix(lc.as_slice(), "### ");
        let cur = current;
        let cur2 = if starts {
            flush_into(&mut blocks, cur);
            Some(String::new())
        } else {
            cur
        };
        current = match cur2 {
            Some(b) => {
                let mut b = b;
                push_str(&mut b, ls[i].as_str());
                push(&mut b, '\n');
                Some(b)
            },
            None => None,
        };
        i += 1;
    }
    flush_into(&mut blocks, current);
    blocks
}

/// Parse a legacy `backlog.md` file into a typed backlog. Ids are
/// allocated in file order, each against the ids already allocated.
pub fn parse_backlog_markdown(input: &str) -> (r: Result<BacklogFile, PlanError>)
    ensures
        r is Ok <==> forall|k: int|
            0 <= k < task_blocks(input@).len() ==> block_parses(#[trigger] task_blocks(input@)[k]),
        r matches Ok(f) ==> {
            &&& f.schema_version == BACKLOG_SCHEMA_VERSION
            &&& f.items@.len() == task_blocks(input@).len()
            &&& forall|k: int|
                0 <= k < f.items@.len() ==> entry_from_block(
                    #[trigger] f.items@[k],
                    task_blocks(input@)[k],
                    crate::state::backlog::schema::entry_ids(f.items@.take(k)),
                )
        },
        r matches Err(e) ==> e.code == ErrorCode::InvalidInput,
{
    let blocks = split_into_task_blocks(input);
    let ghost bs = task_blocks(input@);
    let mut items: Vec<BacklogEntry> = Vec::new();
    let mut existing: Vec<String> = Vec::new();
    let mut k: usize = 0;
    while k < blocks.len()
        invariant
            views(blocks@) == bs,
            bs == task_blocks(input@),
            k <= blocks@.len(),
            items@.len() == k,
            existing@.len() == k,
            views(existing@) == crate::state::backlog::schema::entry_ids(items@),
            forall|j: int| 0 <= j < k ==> block_parses(#[trigger] bs[j]),
            forall|j: int|
                0 <= j < k ==> entry_from_block(
                    #[trigger] items@[j],
                    bs[j],
                    crate::state::backlog::schema::entry_ids(items@.take(j)),
                ),
        decreases blocks.len() - k,
    {
        assert(bs[k as int] == blocks@[k as int]@);
        match parse_single_task_block(blocks[k].as_str(), &existing) {
            Ok(entry) => {
                let ghost before = items@;
                let ghost before_ex = existing@;
                let idc = owned(entry.item.id.as_str());
                items.push(entry);
                existing.push(idc);
                proof {
                    assert(items@.last().item.id@ == idc@);
                    assert(views(existing@) =~= views(before_ex).push(idc@));
                    assert(crate::state::backlog::schema::entry_ids(items@) =~= crate::state::backlog::schema::entry_ids(before).push(idc@));
                    assert(items@.take(k as int) =~= before);
                    assert forall|j: int| 0 <= j < k + 1 implies entry_from_block(
                        #[trigger] items@[j],
                        bs[j],
                        crate::state::backlog::schema::entry_ids(items@.take(j)),
                    ) by {
                        assert(items@.take(j) =~= before.take(j));
                    }
                    assert(views(existing@) =~= crate::state::backlog::schema::entry_ids(items@));
                }
            },
            Err(e) => {
                assert(!block_parses(bs[k as int]));
                let num = decimal_string((k + 1) as u64);
                let head = concat2("failed to parse task block #", num.as_str());
                let mut msg = concat2(head.as_str(), ": ");
                push_str(&mut msg, e.message.as_str());
                return Err(PlanError { code: ErrorCode::InvalidInput, message: msg });
            },
        }
        k += 1;
    }
    Ok(BacklogFile { schema_version: BACKLOG_SCHEMA_VERSION, items })
}

} // verus!
