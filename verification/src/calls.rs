//! Properties of the tool-call counts that hold for every sequence of log
//! lines: calls per tool, edits per shortened path, and created and edited
//! files.
use vstd::prelude::*;
use crate::clock::{spec_parse_datetime, spec_parse_date};
use crate::data::{ContentBlock, SessionLine, Tally, get_or, note_tool, note_tools, step, tally, tool_name};
use crate::naming::spec_shorten_path;
use crate::text::text_or_empty;
use crate::wrap::{wrap64, u64_range, lemma_wrap64_assoc};

verus! {

/// The content blocks of an assistant line's message, none for other lines.
pub open spec fn line_blocks(l: SessionLine) -> Seq<ContentBlock> {
    if text_or_empty(l.line_type) == "assistant"@ {
        match l.message {
            Some(m) => match m.content {
                Some(blocks) => blocks@,
                None => Seq::empty(),
            },
            None => Seq::empty(),
        }
    } else {
        Seq::empty()
    }
}

/// The number of `blocks` that satisfy `p`.
pub open spec fn count_blocks(blocks: Seq<ContentBlock>, p: spec_fn(ContentBlock) -> bool) -> int
    decreases blocks.len(),
{
    if blocks.len() == 0 {
        0
    } else {
        count_blocks(blocks.drop_last(), p) + (if p(blocks.last()) {
            1int
        } else {
            0int
        })
    }
}

/// The number of content blocks of the assistant lines among `lines` that
/// satisfy `p`.
pub open spec fn count_line_blocks(lines: Seq<SessionLine>, p: spec_fn(ContentBlock) -> bool) -> int
    decreases lines.len(),
{
    if lines.len() == 0 {
        0
    } else {
        count_line_blocks(lines.drop_last(), p) + count_blocks(line_blocks(lines.last()), p)
    }
}

proof fn lemma_count_blocks_nonneg(blocks: Seq<ContentBlock>, p: spec_fn(ContentBlock) -> bool)
    ensures
        count_blocks(blocks, p) >= 0,
    decreases blocks.len(),
{
    if blocks.len() > 0 {
        lemma_count_blocks_nonneg(blocks.drop_last(), p);
    }
}

proof fn lemma_count_line_blocks_nonneg(lines: Seq<SessionLine>, p: spec_fn(ContentBlock) -> bool)
    ensures
        count_line_blocks(lines, p) >= 0,
    decreases lines.len(),
{
    if lines.len() > 0 {
        lemma_count_line_blocks_nonneg(lines.drop_last(), p);
        lemma_count_blocks_nonneg(line_blocks(lines.last()), p);
    }
}

/// The block is a tool call counted under the name `n`.
pub open spec fn calls_of(n: Seq<char>) -> spec_fn(ContentBlock) -> bool {
    |b: ContentBlock| text_or_empty(b.block_type) == "tool_use"@ && tool_name(b) == n
}

/// The block is a `Write` or `Edit` call of a file whose shortened path is `k`.
pub open spec fn edits_of(k: Seq<char>) -> spec_fn(ContentBlock) -> bool {
    |b: ContentBlock|
        text_or_empty(b.block_type) == "tool_use"@ && (tool_name(b) == "Write"@ || tool_name(b) == "Edit"@)
            && (b.file_path matches Some(fp) && spec_shorten_path(fp@) == k)
}

/// The block is a `Write` call with a file path or an `Edit` call.
pub open spec fn writes_or_edits() -> spec_fn(ContentBlock) -> bool {
    |b: ContentBlock|
        text_or_empty(b.block_type) == "tool_use"@ && ((tool_name(b) == "Write"@ && b.file_path is Some)
            || tool_name(b) == "Edit"@)
}

/// `wrap64` leaves a value that fits in 64 bits as it is.
proof fn lemma_wrap64_small(x: u64)
    ensures
        wrap64(x as int) == x,
{
    vstd::arithmetic::div_mod::lemma_small_mod(x as nat, crate::wrap::u64_range() as nat);
}

/// The parts of a line's processing that are not its tool calls leave the
/// tool counts, the edit counts and the file operations as they were: the
/// line's totals are those of its tool calls applied to such a tally.
proof fn lemma_step_is_tools(t: Tally, l: SessionLine) -> (v: Tally)
    ensures
        v.tool_calls == t.tool_calls,
        v.file_edit_counts == t.file_edit_counts,
        v.file_ops == t.file_ops,
        v.written_files == t.written_files,
        step(t, l).written_files == note_tools(v, line_blocks(l), text_or_empty(l.session_id)).written_files,
        step(t, l).tool_calls == note_tools(v, line_blocks(l), text_or_empty(l.session_id)).tool_calls,
        step(t, l).file_edit_counts == note_tools(v, line_blocks(l), text_or_empty(l.session_id)).file_edit_counts,
        step(t, l).file_ops == note_tools(v, line_blocks(l), text_or_empty(l.session_id)).file_ops,
{
    let kind = text_or_empty(l.line_type);
    let sid = text_or_empty(l.session_id);
    let dt = spec_parse_datetime(text_or_empty(l.timestamp));
    let date = spec_parse_date(text_or_empty(l.timestamp));
    let t1 = crate::data::note_time(t, sid, dt);
    let t2 = crate::data::note_hour(t1, kind == "user"@ || kind == "assistant"@, dt);
    if kind == "assistant"@ {
        let t3 = crate::data::note_assistant_turn(t2, sid);
        match l.message {
            Some(m) => {
                let t4 = match m.usage {
                    Some(u) => crate::data::note_usage(t3, u, m.model, date),
                    None => t3,
                };
                t4
            },
            None => t3,
        }
    } else if kind == "user"@ {
        crate::data::note_user_turn(t2, sid)
    } else {
        t2
    }
}

proof fn lemma_tools_calls(t: Tally, blocks: Seq<ContentBlock>, sid: Seq<char>, n: Seq<char>)
    ensures
        get_or(note_tools(t, blocks, sid).tool_calls, n, 0u64) == wrap64(get_or(t.tool_calls, n, 0u64) + count_blocks(
            blocks,
            calls_of(n),
        )),
        note_tools(t, blocks, sid).tool_calls.contains_key(n) == (t.tool_calls.contains_key(n) || count_blocks(
            blocks,
            calls_of(n),
        ) > 0),
    decreases blocks.len(),
{
    if blocks.len() > 0 {
        let init = blocks.drop_last();
        lemma_tools_calls(t, init, sid, n);
        lemma_count_blocks_nonneg(init, calls_of(n));
        let mid = note_tools(t, init, sid);
        let b = blocks.last();
        let p = calls_of(n);
        assert(p(b) == (text_or_empty(b.block_type) == "tool_use"@ && tool_name(b) == n));
        assert(count_blocks(blocks, p) == count_blocks(init, p) + (if p(b) { 1int } else { 0int }));
        assert(note_tool(mid, b, sid).tool_calls == (if text_or_empty(b.block_type) == "tool_use"@ {
            mid.tool_calls.insert(tool_name(b), wrap64(get_or(mid.tool_calls, tool_name(b), 0u64) + 1))
        } else {
            mid.tool_calls
        }));
        lemma_wrap64_assoc(get_or(t.tool_calls, n, 0u64) + count_blocks(init, calls_of(n)), 1);
    } else {
        lemma_wrap64_small(get_or(t.tool_calls, n, 0u64));
    }
}

/// Tool calls per tool: a name is counted exactly when some assistant line
/// holds a tool call under that name (`unknown` for a call without one), and
/// its count is the number of such calls (wrapping at 2^64).
pub proof fn law_tool_calls(lines: Seq<SessionLine>, n: Seq<char>)
    ensures
        tally(lines).tool_calls.contains_key(n) == (count_line_blocks(lines, calls_of(n)) > 0),
        get_or(tally(lines).tool_calls, n, 0u64) == wrap64(count_line_blocks(lines, calls_of(n))),
    decreases lines.len(),
{
    if lines.len() > 0 {
        let prev = lines.drop_last();
        let l = lines.last();
        law_tool_calls(prev, n);
        let t = tally(prev);
        let v = lemma_step_is_tools(t, l);
        let sid = text_or_empty(l.session_id);
        lemma_tools_calls(v, line_blocks(l), sid, n);
        lemma_count_line_blocks_nonneg(prev, calls_of(n));
        lemma_count_blocks_nonneg(line_blocks(l), calls_of(n));
        lemma_wrap64_assoc(count_line_blocks(prev, calls_of(n)), count_blocks(line_blocks(l), calls_of(n)));
    } else {
        assert(wrap64(0) == 0);
    }
}

proof fn lemma_tools_edits(t: Tally, blocks: Seq<ContentBlock>, sid: Seq<char>, k: Seq<char>)
    ensures
        get_or(note_tools(t, blocks, sid).file_edit_counts, k, 0u64) == wrap64(get_or(t.file_edit_counts, k, 0u64)
            + count_blocks(blocks, edits_of(k))),
        note_tools(t, blocks, sid).file_edit_counts.contains_key(k) == (t.file_edit_counts.contains_key(k)
            || count_blocks(blocks, edits_of(k)) > 0),
    decreases blocks.len(),
{
    if blocks.len() > 0 {
        let init = blocks.drop_last();
        lemma_tools_edits(t, init, sid, k);
        lemma_count_blocks_nonneg(init, edits_of(k));
        let b = blocks.last();
        let p = edits_of(k);
        assert(p(b) == (text_or_empty(b.block_type) == "tool_use"@ && (tool_name(b) == "Write"@ || tool_name(b) == "Edit"@)
            && (b.file_path matches Some(fp) && spec_shorten_path(fp@) == k)));
        assert(count_blocks(blocks, p) == count_blocks(init, p) + (if p(b) { 1int } else { 0int }));
        lemma_wrap64_assoc(get_or(t.file_edit_counts, k, 0u64) + count_blocks(init, p), 1);
    } else {
        lemma_wrap64_small(get_or(t.file_edit_counts, k, 0u64));
    }
}

/// Edits per file: a shortened path is counted exactly when some `Write` or
/// `Edit` call names a file with that shortened path, and its count is the
/// number of such calls (wrapping at 2^64).
pub proof fn law_file_edit_counts(lines: Seq<SessionLine>, k: Seq<char>)
    ensures
        tally(lines).file_edit_counts.contains_key(k) == (count_line_blocks(lines, edits_of(k)) > 0),
        get_or(tally(lines).file_edit_counts, k, 0u64) == wrap64(count_line_blocks(lines, edits_of(k))),
    decreases lines.len(),
{
    if lines.len() > 0 {
        let prev = lines.drop_last();
        let l = lines.last();
        law_file_edit_counts(prev, k);
        let t = tally(prev);
        let v = lemma_step_is_tools(t, l);
        let sid = text_or_empty(l.session_id);
        lemma_tools_edits(v, line_blocks(l), sid, k);
        lemma_count_line_blocks_nonneg(prev, edits_of(k));
        lemma_count_blocks_nonneg(line_blocks(l), edits_of(k));
        lemma_wrap64_assoc(count_line_blocks(prev, edits_of(k)), count_blocks(line_blocks(l), edits_of(k)));
    } else {
        assert(wrap64(0) == 0);
    }
}

proof fn lemma_tool_writes(t: Tally, b: ContentBlock, sid: Seq<char>)
    ensures
        ({
            let ops = note_tool(t, b, sid).file_ops;
            if writes_or_edits()(b) {
                wrap64(ops.created + ops.edited) == wrap64(t.file_ops.created + t.file_ops.edited + 1)
            } else {
                ops.created == t.file_ops.created && ops.edited == t.file_ops.edited
            }
        }),
{
    let c = t.file_ops.created;
    let e = t.file_ops.edited;
    let p = writes_or_edits();
    let name = tool_name(b);
    reveal_strlit("Write");
    reveal_strlit("Edit");
    assert("Write"@ != "Edit"@) by {
        assert("Write"@.len() != "Edit"@.len());
    }
    assert(p(b) == (text_or_empty(b.block_type) == "tool_use"@ && ((name == "Write"@ && b.file_path is Some)
        || name == "Edit"@)));
    let ops = note_tool(t, b, sid).file_ops;
    if text_or_empty(b.block_type) == "tool_use"@ {
        if name == "Write"@ {
            if let Some(fp) = b.file_path {
                if get_or(t.written_files, fp@, 0u64) == 0 {
                    assert(ops.created == wrap64(c + 1) && ops.edited == e);
                    lemma_wrap64_assoc(c + 1, e as int);
                } else {
                    assert(ops.edited == wrap64(e + 1) && ops.created == c);
                    lemma_wrap64_assoc(e + 1, c as int);
                }
            }
        } else if name == "Edit"@ {
            assert(ops.edited == wrap64(e + 1) && ops.created == c);
            lemma_wrap64_assoc(e + 1, c as int);
        }
    }
}

proof fn lemma_tools_writes(t: Tally, blocks: Seq<ContentBlock>, sid: Seq<char>)
    ensures
        ({
            let ops = note_tools(t, blocks, sid).file_ops;
            wrap64(ops.created + ops.edited) == wrap64(t.file_ops.created + t.file_ops.edited + count_blocks(
                blocks,
                writes_or_edits(),
            ))
        }),
    decreases blocks.len(),
{
    if blocks.len() > 0 {
        let init = blocks.drop_last();
        lemma_tools_writes(t, init, sid);
        let mid = note_tools(t, init, sid).file_ops;
        let b = blocks.last();
        let p = writes_or_edits();
        assert(p(b) == (text_or_empty(b.block_type) == "tool_use"@ && ((tool_name(b) == "Write"@ && b.file_path is Some)
            || tool_name(b) == "Edit"@)));
        assert(count_blocks(blocks, p) == count_blocks(init, p) + (if p(b) { 1int } else { 0int }));
        lemma_tool_writes(note_tools(t, init, sid), b, sid);
        lemma_wrap64_assoc(t.file_ops.created + t.file_ops.edited + count_blocks(init, p), 1);
        lemma_wrap64_assoc(mid.created + mid.edited, 1);
    }
}

/// Every `Write` call with a file path counts as one created or one edited
/// file, and every `Edit` call as one edited file: created plus edited is
/// the number of those calls (wrapping at 2^64).
pub proof fn law_created_plus_edited(lines: Seq<SessionLine>)
    ensures
        wrap64(tally(lines).file_ops.created + tally(lines).file_ops.edited) == wrap64(
            count_line_blocks(lines, writes_or_edits()),
        ),
    decreases lines.len(),
{
    if lines.len() > 0 {
        let prev = lines.drop_last();
        let l = lines.last();
        law_created_plus_edited(prev);
        let t = tally(prev);
        let v = lemma_step_is_tools(t, l);
        let sid = text_or_empty(l.session_id);
        lemma_tools_writes(v, line_blocks(l), sid);
        let c = count_blocks(line_blocks(l), writes_or_edits());
        lemma_wrap64_assoc(t.file_ops.created + t.file_ops.edited, c);
        lemma_wrap64_assoc(count_line_blocks(prev, writes_or_edits()), c);
    } else {
        assert(wrap64(0) == 0);
    }
}

/// The full path that a `Write` or `Edit` call with a path names.
pub open spec fn written_path(b: ContentBlock) -> Option<Seq<char>> {
    if text_or_empty(b.block_type) == "tool_use"@ && (tool_name(b) == "Write"@ || tool_name(b) == "Edit"@) {
        match b.file_path {
            Some(fp) => Some(fp@),
            None => None,
        }
    } else {
        None
    }
}

/// The block is a `Write` call with a path.
pub open spec fn is_write(b: ContentBlock) -> bool {
    text_or_empty(b.block_type) == "tool_use"@ && tool_name(b) == "Write"@ && b.file_path is Some
}

/// The content blocks of all assistant lines among `lines`, in order.
pub open spec fn all_blocks(lines: Seq<SessionLine>) -> Seq<ContentBlock>
    decreases lines.len(),
{
    if lines.len() == 0 {
        Seq::empty()
    } else {
        all_blocks(lines.drop_last()) + line_blocks(lines.last())
    }
}

/// Some `Write` or `Edit` call among `blocks` names the file `fp`.
pub open spec fn names_file(blocks: Seq<ContentBlock>, fp: Seq<char>) -> bool {
    exists|i: int| 0 <= i < blocks.len() && #[trigger] written_path(blocks[i]) == Some(fp)
}

/// The number of `Write` and `Edit` calls among `blocks` that name `fp`.
pub open spec fn count_named(blocks: Seq<ContentBlock>, fp: Seq<char>) -> int
    decreases blocks.len(),
{
    if blocks.len() == 0 {
        0
    } else {
        count_named(blocks.drop_last(), fp) + (if written_path(blocks.last()) == Some(fp) {
            1int
        } else {
            0int
        })
    }
}

/// The number of `Write` calls among `blocks` whose file no earlier `Write`
/// or `Edit` call named.
pub open spec fn first_writes(blocks: Seq<ContentBlock>) -> int
    decreases blocks.len(),
{
    if blocks.len() == 0 {
        0
    } else {
        first_writes(blocks.drop_last()) + (if is_write(blocks.last()) && !names_file(
            blocks.drop_last(),
            written_path(blocks.last())->0,
        ) {
            1int
        } else {
            0int
        })
    }
}

proof fn lemma_count_named(blocks: Seq<ContentBlock>, fp: Seq<char>)
    ensures
        0 <= count_named(blocks, fp) <= blocks.len(),
        (count_named(blocks, fp) > 0) == names_file(blocks, fp),
    decreases blocks.len(),
{
    if blocks.len() > 0 {
        let init = blocks.drop_last();
        let n = blocks.len() - 1;
        lemma_count_named(init, fp);
        assert(blocks[n] == blocks.last());
        if names_file(init, fp) {
            let i = choose|i: int| 0 <= i < init.len() && #[trigger] written_path(init[i]) == Some(fp);
            assert(written_path(blocks[i]) == Some(fp));
        }
        if names_file(blocks, fp) {
            let i = choose|i: int| 0 <= i < blocks.len() && #[trigger] written_path(blocks[i]) == Some(fp);
            if i < n {
                assert(written_path(init[i]) == Some(fp));
            }
        }
    }
}

proof fn lemma_first_writes_bound(blocks: Seq<ContentBlock>)
    ensures
        0 <= first_writes(blocks) <= blocks.len(),
    decreases blocks.len(),
{
    if blocks.len() > 0 {
        lemma_first_writes_bound(blocks.drop_last());
    }
}

/// The write counts and the created count of `t` are those of the calls
/// `blocks`, none of them having wrapped around.
pub open spec fn writes_follow(t: Tally, blocks: Seq<ContentBlock>) -> bool {
    &&& t.file_ops.created == first_writes(blocks)
    &&& forall|fp: Seq<char>| #[trigger] get_or(t.written_files, fp, 0u64) == count_named(blocks, fp)
}

proof fn lemma_tool_follows(t: Tally, b: ContentBlock, sid: Seq<char>, done: Seq<ContentBlock>)
    requires
        writes_follow(t, done),
        done.len() + 1 < u64_range(),
    ensures
        writes_follow(note_tool(t, b, sid), done.push(b)),
{
    reveal_strlit("Write");
    reveal_strlit("Edit");
    assert("Write"@ != "Edit"@) by {
        assert("Write"@.len() != "Edit"@.len());
    }
    let all = done.push(b);
    assert(all.drop_last() == done);
    assert(all.last() == b);
    let u = note_tool(t, b, sid);
    lemma_first_writes_bound(done);
    match written_path(b) {
        Some(fp) => {
            lemma_count_named(done, fp);
            assert(get_or(t.written_files, fp, 0u64) == count_named(done, fp));
            assert(wrap64(count_named(done, fp) + 1) == count_named(done, fp) + 1) by {
                vstd::arithmetic::div_mod::lemma_small_mod((count_named(done, fp) + 1) as nat, u64_range() as nat);
            }
            assert(u.written_files == t.written_files.insert(fp, wrap64(get_or(t.written_files, fp, 0u64) + 1)));
            assert forall|q: Seq<char>| #[trigger] get_or(u.written_files, q, 0u64) == count_named(all, q) by {
                assert(get_or(t.written_files, q, 0u64) == count_named(done, q));
            }
            if is_write(b) {
                assert(wrap64(t.file_ops.created + 1) == t.file_ops.created + 1) by {
                    vstd::arithmetic::div_mod::lemma_small_mod((t.file_ops.created + 1) as nat, u64_range() as nat);
                }
            }
        },
        None => {
            assert(u.written_files == t.written_files);
            assert(u.file_ops.created == t.file_ops.created);
            assert forall|q: Seq<char>| #[trigger] get_or(u.written_files, q, 0u64) == count_named(all, q) by {
                assert(get_or(t.written_files, q, 0u64) == count_named(done, q));
            }
        },
    }
}

proof fn lemma_tools_follow(t: Tally, blocks: Seq<ContentBlock>, sid: Seq<char>, done: Seq<ContentBlock>)
    requires
        writes_follow(t, done),
        done.len() + blocks.len() < u64_range(),
    ensures
        writes_follow(note_tools(t, blocks, sid), done + blocks),
    decreases blocks.len(),
{
    if blocks.len() > 0 {
        let init = blocks.drop_last();
        lemma_tools_follow(t, init, sid, done);
        lemma_tool_follows(note_tools(t, init, sid), blocks.last(), sid, done + init);
        assert((done + init).push(blocks.last()) =~= done + blocks);
    } else {
        assert(done + blocks =~= done);
    }
}

/// A `Write` call counts as a created file exactly when no earlier `Write`
/// or `Edit` call named its file; every other `Write` counts as an edit.
/// Stated for logs with fewer than 2^64 content blocks, which no machine
/// holds, so that no counter wraps around.
pub proof fn law_created_files(lines: Seq<SessionLine>)
    requires
        all_blocks(lines).len() < u64_range(),
    ensures
        tally(lines).file_ops.created == first_writes(all_blocks(lines)),
    decreases lines.len(),
{
    lemma_writes_follow(lines);
}

proof fn lemma_writes_follow(lines: Seq<SessionLine>)
    requires
        all_blocks(lines).len() < u64_range(),
    ensures
        writes_follow(tally(lines), all_blocks(lines)),
    decreases lines.len(),
{
    if lines.len() > 0 {
        let prev = lines.drop_last();
        let l = lines.last();
        assert(all_blocks(lines) == all_blocks(prev) + line_blocks(l));
        lemma_writes_follow(prev);
        let t = tally(prev);
        let v = lemma_step_is_tools(t, l);
        let sid = text_or_empty(l.session_id);
        assert forall|fp: Seq<char>| #[trigger] get_or(v.written_files, fp, 0u64) == count_named(all_blocks(prev), fp) by {
            assert(get_or(t.written_files, fp, 0u64) == count_named(all_blocks(prev), fp));
        }
        lemma_tools_follow(v, line_blocks(l), sid, all_blocks(prev));
        let u = note_tools(v, line_blocks(l), sid);
        assert forall|fp: Seq<char>| #[trigger] get_or(tally(lines).written_files, fp, 0u64) == count_named(all_blocks(lines), fp) by {
            assert(get_or(u.written_files, fp, 0u64) == count_named(all_blocks(lines), fp));
        }
    } else {
        assert forall|fp: Seq<char>| #[trigger] get_or(tally(lines).written_files, fp, 0u64) == count_named(all_blocks(lines), fp) by {
        }
    }
}

} // verus!
