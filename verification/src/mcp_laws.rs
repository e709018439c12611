//! What holds of writes to the tool server block: what stands outside it counts as unchanged.

use crate::mcp::{
    canonical, mcp_family, outside_print, unix_eol, McpBlock, McpDeclare, McpDirective, McpOrigin,
};
use crate::mcp_change::{
    evidence_failure, other_declares, other_directives, same_directive, switched, write_failures,
    Evidence,
};
use crate::model;
use crate::model::CharSet;
use crate::plugin::managed::{
    edited, empty_array, eol_of, managed_family, opened, place, shared_family, significant,
};
use crate::plugin::managed_laws::{
    families_apart, frame, is_eol, law_removed_block_is_gone, law_text_around_a_block_is_kept,
    law_written_block_is_found, lemma_apart, lemma_count_zero, lemma_eol, lemma_replaced_free,
    marker_pair,
};
use vstd::prelude::*;

verus! {

/// The markers of the tool server block are proper and apart from those of the other families.
pub proof fn law_server_markers_are_proper()
    ensures
        marker_pair(mcp_family().begin(), mcp_family().end()),
        families_apart(mcp_family(), managed_family()),
        families_apart(managed_family(), mcp_family()),
        families_apart(mcp_family(), shared_family()),
        families_apart(shared_family(), mcp_family()),
{
    reveal_strlit("# >>> dsh-launcher mcp ");
    reveal_strlit("# <<< dsh-launcher mcp ");
    reveal_strlit("# >>> dsh-launcher managed ");
    reveal_strlit("# <<< dsh-launcher managed ");
    reveal_strlit("# >>> dsh-launcher shared ");
    reveal_strlit("# <<< dsh-launcher shared ");
    reveal_strlit("v1");
    reveal_strlit(" — 由启动器维护，请勿手工编辑 >>>");
    reveal_strlit(" <<<");
    let f = mcp_family();
    let g = managed_family();
    let h = shared_family();
    assert(f.begin()[20] == 'c' && f.end()[20] == 'c');
    assert(g.begin()[20] == 'a' && g.end()[20] == 'a');
    assert(h.begin()[20] == 'h' && h.end()[20] == 'h');
    lemma_apart(f.begin(), g.begin(), 20);
    lemma_apart(f.begin(), g.end(), 20);
    lemma_apart(f.end(), g.begin(), 20);
    lemma_apart(f.end(), g.end(), 20);
    lemma_apart(f.begin(), h.begin(), 20);
    lemma_apart(f.begin(), h.end(), 20);
    lemma_apart(f.end(), h.begin(), 20);
    lemma_apart(f.end(), h.end(), 20);
}

proof fn lemma_unix_join(x: Seq<char>, y: Seq<char>)
    requires
        !(x.len() > 0 && y.len() > 0 && x.last() == '\r' && y[0] == '\n'),
    ensures
        unix_eol(x + y) == unix_eol(x) + unix_eol(y),
    decreases x.len(),
{
    let s = x + y;
    if x.len() == 0 {
        assert(s =~= y);
        assert(unix_eol(x) + unix_eol(y) =~= unix_eol(y));
    } else if x.len() > 1 && x[0] == '\r' && x[1] == '\n' {
        let rest = x.skip(2);
        assert(s[0] == '\r' && s[1] == '\n');
        assert(s.skip(2) =~= rest + y);
        lemma_unix_join(rest, y);
        assert(seq!['\n'] + (unix_eol(rest) + unix_eol(y)) =~= (seq!['\n'] + unix_eol(rest))
            + unix_eol(y));
    } else {
        let rest = x.skip(1);
        assert(s[0] == x[0]);
        if s.len() > 1 && x.len() > 1 {
            assert(s[1] == x[1]);
        }
        if s.len() > 1 && x.len() == 1 {
            assert(s[1] == y[0]);
            assert(x.last() == x[0]);
        }
        assert(s.skip(1) =~= rest + y);
        if rest.len() > 0 {
            assert(rest.last() == x.last());
        }
        lemma_unix_join(rest, y);
        assert(seq![x[0]] + (unix_eol(rest) + unix_eol(y)) =~= (seq![x[0]] + unix_eol(rest))
            + unix_eol(y));
    }
}

proof fn lemma_unix_of_eol(eol: Seq<char>)
    requires
        is_eol(eol),
    ensures
        unix_eol(eol) == seq!['\n'],
{
    reveal_with_fuel(unix_eol, 3);
    if eol == seq!['\r', '\n'] {
        assert(eol.skip(2) =~= seq![]);
    } else {
        assert(eol.skip(1) =~= seq![]);
    }
    assert(unix_eol(eol) =~= seq!['\n']);
}

proof fn lemma_back_over_same(s: Seq<char>, t: Seq<char>, k: CharSet, to: int)
    requires
        0 <= to <= s.len(),
        to <= t.len(),
        forall|i: int| 0 <= i < to ==> s[i] == t[i],
    ensures
        model::back_over(s, k, to) == model::back_over(t, k, to),
    decreases to,
{
    if to > 0 {
        lemma_back_over_same(s, t, k, to - 1);
    }
}

proof fn lemma_trim_end_lf(s: Seq<char>)
    ensures
        model::trim_end(s + seq!['\n'], CharSet::Only('\n')) == model::trim_end(
            s,
            CharSet::Only('\n'),
        ),
{
    let k = CharSet::Only('\n');
    let t = s + seq!['\n'];
    assert(t[t.len() - 1] == '\n');
    lemma_back_over_same(s, t, k, s.len() as int);
    model::lemma_back_over(s, k, s.len() as int);
    let n = model::back_over(s, k, s.len() as int);
    assert(model::back_over(t, k, t.len() as int) == n);
    assert(t.take(n) =~= s.take(n));
}

proof fn lemma_first_not_shift(s: Seq<char>, t: Seq<char>, k: CharSet, from: int)
    requires
        t.len() == s.len() + 1,
        forall|i: int| 0 <= i < s.len() ==> #[trigger] s[i] == t[i + 1],
        0 <= from <= s.len(),
    ensures
        model::first_not_in(t, k, from + 1) == model::first_not_in(s, k, from) + 1,
    decreases s.len() - from,
{
    if from < s.len() {
        assert(s[from] == t[from + 1]);
        lemma_first_not_shift(s, t, k, from + 1);
    }
}

proof fn lemma_trim_start_lf(s: Seq<char>)
    ensures
        model::trim_start(seq!['\n'] + s, CharSet::Only('\n')) == model::trim_start(
            s,
            CharSet::Only('\n'),
        ),
{
    let k = CharSet::Only('\n');
    let t = seq!['\n'] + s;
    assert(t[0] == '\n');
    lemma_first_not_shift(s, t, k, 0);
    model::lemma_first_not_in(s, k, 0);
    let n = model::first_not_in(s, k, 0);
    assert(t.skip(n + 1) =~= s.skip(n));
}

/// Writing a tool server block into a file that had none leaves what stands outside the block as it
/// was, unless the file ends in a lone carriage return that the line feed before the block would
/// complete.
pub proof fn law_first_block_leaves_the_rest(
    path: Seq<char>,
    content: Seq<char>,
    body: Seq<char>,
)
    requires
        place(content, mcp_family().begin(), mcp_family().end()) is Absent,
        empty_array(content) is None,
        content.len() > 0 && content.last() == '\r' ==> eol_of(content) == seq!['\r', '\n'],
        !model::blank(body),
        edited(path, Some(content), mcp_family().begin(), mcp_family().end(), Some(body)) is Ok,
    ensures
        ({
            let edit = edited(
                path,
                Some(content),
                mcp_family().begin(),
                mcp_family().end(),
                Some(body),
            )->Ok_0;
            &&& edit.written
            &&& canonical(edit.content->0) == canonical(content)
        }),
{
    let f = mcp_family();
    let k = CharSet::Only('\n');
    let eol = eol_of(content);
    law_server_markers_are_proper();
    lemma_eol(content);
    law_written_block_is_found(path, Some(content), f.begin(), f.end(), body);
    let after = edited(path, Some(content), f.begin(), f.end(), Some(body))->Ok_0.content->0;
    let pre = opened(content, eol);
    assert(frame(Some(content), f.begin(), f.end()) == (pre, eol));
    lemma_unix_of_eol(eol);
    lemma_trim_start_lf(seq![]);
    assert(seq!['\n'] + Seq::<char>::empty() =~= seq!['\n']);
    assert(model::trim_start(unix_eol(eol), k) =~= seq![]);
    if content.len() == 0 {
        assert(pre == content);
    } else {
        lemma_unix_join(content, eol);
        lemma_trim_end_lf(unix_eol(content));
        if !model::ends_with(content, "\n"@) {
            assert(pre == content + eol + eol);
            assert((content + eol).last() == '\n');
            lemma_unix_join(content + eol, eol);
            lemma_trim_end_lf(unix_eol(content + eol));
        }
    }
    assert(model::trim_end(unix_eol(pre), k) == model::trim_end(unix_eol(content), k));
    let head = model::trim_end(unix_eol(pre), k);
    assert(head + seq!['\0'] + Seq::<char>::empty() =~= head + seq!['\0']);
}

/// Rewriting a tool server block leaves what stands outside it as it was, unless an empty list
/// stands before the block.
pub proof fn law_new_body_leaves_the_rest(path: Seq<char>, content: Seq<char>, body: Seq<char>)
    requires
        place(content, mcp_family().begin(), mcp_family().end()) is Block,
        empty_array(place(content, mcp_family().begin(), mcp_family().end())->before) is None,
        !model::blank(body),
        edited(path, Some(content), mcp_family().begin(), mcp_family().end(), Some(body)) is Ok,
    ensures
        canonical(
            edited(
                path,
                Some(content),
                mcp_family().begin(),
                mcp_family().end(),
                Some(body),
            )->Ok_0.content->0,
        ) == canonical(content),
{
    let f = mcp_family();
    law_server_markers_are_proper();
    law_text_around_a_block_is_kept(path, content, f.begin(), f.end(), body);
}

/// A text of line feeds and CRLF pairs.
proof fn lemma_only_line_ends(s: Seq<char>)
    requires
        forall|i: int| 0 <= i < unix_eol(s).len() ==> #[trigger] unix_eol(s)[i] == '\n',
    ensures
        forall|i: int| 0 <= i < s.len() ==> #[trigger] s[i] == '\n' || s[i] == '\r',
    decreases s.len(),
{
    if s.len() > 0 {
        if s.len() > 1 && s[0] == '\r' && s[1] == '\n' {
            let rest = s.skip(2);
            let u = unix_eol(s);
            assert forall|i: int| 0 <= i < unix_eol(rest).len() implies #[trigger] unix_eol(rest)[i]
                == '\n' by {
                assert(u[i + 1] == unix_eol(rest)[i]);
            }
            lemma_only_line_ends(rest);
            assert forall|i: int| 0 <= i < s.len() implies #[trigger] s[i] == '\n' || s[i]
                == '\r' by {
                if i >= 2 {
                    assert(s[i] == rest[i - 2]);
                }
            }
        } else {
            let rest = s.skip(1);
            let u = unix_eol(s);
            assert(u[0] == s[0]);
            assert forall|i: int| 0 <= i < unix_eol(rest).len() implies #[trigger] unix_eol(rest)[i]
                == '\n' by {
                assert(u[i + 1] == unix_eol(rest)[i]);
            }
            lemma_only_line_ends(rest);
            assert forall|i: int| 0 <= i < s.len() implies #[trigger] s[i] == '\n' || s[i]
                == '\r' by {
                if i >= 1 {
                    assert(s[i] == rest[i - 1]);
                }
            }
        }
    }
}

/// Removing the last block of a file leaves what stands before it as it was.
pub proof fn law_removal_leaves_the_rest(path: Seq<char>, content: Seq<char>)
    requires
        place(content, mcp_family().begin(), mcp_family().end()) is Block,
        !model::blank(place(content, mcp_family().begin(), mcp_family().end())->block),
        significant(place(content, mcp_family().begin(), mcp_family().end())->before),
        ({
            let after = unix_eol(place(content, mcp_family().begin(), mcp_family().end())->after);
            forall|i: int| 0 <= i < after.len() ==> #[trigger] after[i] == '\n'
        }),
    ensures
        edited(path, Some(content), mcp_family().begin(), mcp_family().end(), None) is Ok,
        canonical(
            edited(
                path,
                Some(content),
                mcp_family().begin(),
                mcp_family().end(),
                None,
            )->Ok_0.content->0,
        ) == canonical(content),
{
    let f = mcp_family();
    let k = CharSet::Only('\n');
    law_server_markers_are_proper();
    let before = place(content, f.begin(), f.end())->before;
    let after = place(content, f.begin(), f.end())->after;
    lemma_only_line_ends(after);
    model::lemma_first_not_in(after, CharSet::LineEnd, 0);
    let rest = model::trim_start(after, CharSet::LineEnd);
    assert(rest =~= seq![]);
    let joined = before + rest;
    assert(joined =~= before);
    crate::plugin::managed_laws::lemma_place_block(content, f.begin(), f.end());
    lemma_count_zero(before, f.begin());
    lemma_count_zero(before, f.end());
    law_removed_block_is_gone(path, content, f.begin(), f.end());
    let result = edited(path, Some(content), f.begin(), f.end(), None)->Ok_0.content->0;
    assert(result == before);
    model::lemma_first_not_in(unix_eol(after), k, 0);
    let tail = model::trim_start(unix_eol(after), k);
    assert(tail =~= seq![]);
    let head = model::trim_end(unix_eol(before), k);
    assert(head + seq!['\0'] + tail =~= head + seq!['\0']);
}

proof fn lemma_crlf_and_back(s: Seq<char>)
    requires
        forall|i: int| 0 <= i < s.len() ==> #[trigger] s[i] != '\r',
    ensures
        unix_eol(model::replace_char(s, '\n', seq!['\r', '\n'])) == s,
        unix_eol(s) == s,
        model::replace_char(s, '\n', seq!['\r', '\n']).len() > 0 ==> model::replace_char(
            s,
            '\n',
            seq!['\r', '\n'],
        ).last() != '\r',
    decreases s.len(),
{
    let crlf = seq!['\r', '\n'];
    if s.len() > 0 {
        let rest = s.drop_last();
        let c = s.last();
        lemma_crlf_and_back(rest);
        let r = model::replace_char(rest, '\n', crlf);
        let one = seq![c];
        assert(s =~= rest + one);
        assert(unix_eol(one) =~= one) by {
            reveal_with_fuel(unix_eol, 2);
            assert(one.skip(1) =~= seq![]);
        }
        lemma_unix_join(rest, one);
        if c == '\n' {
            lemma_unix_of_eol(crlf);
            lemma_unix_join(r, crlf);
        } else {
            assert(r.push(c) =~= r + one);
            lemma_unix_join(r, one);
        }
    } else {
        assert(model::replace_char(s, '\n', crlf) =~= seq![]);
        assert(unix_eol(s) =~= s);
    }
}

/// Line endings do not count: a file without a tool server block reads the same with CRLF.
pub proof fn law_line_endings_do_not_count(content: Seq<char>)
    requires
        place(content, mcp_family().begin(), mcp_family().end()) is Absent,
        forall|i: int| 0 <= i < content.len() ==> #[trigger] content[i] != '\r',
    ensures
        canonical(model::replace_char(content, '\n', seq!['\r', '\n'])) == canonical(content),
{
    let f = mcp_family();
    let crlf = seq!['\r', '\n'];
    law_server_markers_are_proper();
    lemma_crlf_and_back(content);
    lemma_count_zero(content, f.begin());
    lemma_count_zero(content, f.end());
    lemma_replaced_free(content, crlf, f.begin());
    lemma_replaced_free(content, crlf, f.end());
    lemma_count_zero(model::replace_char(content, '\n', crlf), f.begin());
    lemma_count_zero(model::replace_char(content, '\n', crlf), f.end());
}

/// A write passes its check exactly when the fingerprint of what stands outside the block is the
/// same as before and the evidence shows the row in the state that was asked for.
pub proof fn law_write_passes(print: Seq<char>, after: Seq<char>, evidence: Evidence)
    ensures
        write_failures(print, after, evidence).len() == 0 <==> outside_print(after) == Ok::<
            Seq<char>,
            Seq<char>,
        >(print) && evidence_failure(evidence) is None,
{
}

pub proof fn lemma_directive(block: McpBlock, row_id: Seq<char>, i: int)
    requires
        0 <= i <= block.directives@.len(),
    ensures
        match block.directive(row_id, i) {
            Some(k) => i <= k < block.directives@.len() && block.directives@[k].row_id@ == row_id
                && (forall|j: int| i <= j < k ==> (#[trigger] block.directives@[j]).row_id@ != row_id),
            None => forall|j: int|
                i <= j < block.directives@.len() ==> (#[trigger] block.directives@[j]).row_id@
                    != row_id,
        },
    decreases block.directives@.len() - i,
{
    if i < block.directives@.len() && block.directives@[i].row_id@ != row_id {
        lemma_directive(block, row_id, i + 1);
    }
}

/// A server that was switched is in the state that was asked for: switching it again writes nothing.
/// No other row is touched.
pub proof fn law_switched_servers_stay(block: McpBlock, next: McpBlock, row_id: String, off: bool)
    requires
        next.directives@ == switched(block, row_id, off),
    ensures
        same_directive(next, row_id@, off),
        forall|k: int|
            0 <= k < block.directives@.len() && (#[trigger] block.directives@[k]).row_id@ != row_id@
                ==> next.directives@[k] == block.directives@[k],
{
    lemma_directive(block, row_id@, 0);
    lemma_directive(next, row_id@, 0);
    match block.directive(row_id@, 0) {
        Some(i) => {
            assert(next.directives@[i].row_id@ == row_id@);
            let k = next.directive(row_id@, 0)->0;
            if k < i {
                assert(next.directives@[k] == block.directives@[k]);
            }
        },
        None => {
            let n = block.directives@.len() as int;
            assert(next.directives@[n].row_id@ == row_id@);
            let k = next.directive(row_id@, 0)->0;
            if k < n {
                assert(next.directives@[k] == block.directives@[k]);
            }
        },
    }
}

proof fn lemma_others_kept(directives: Seq<McpDirective>, row_id: Seq<char>)
    ensures
        forall|k: int|
            0 <= k < other_directives(directives, row_id).len() ==> (#[trigger] other_directives(
                directives,
                row_id,
            )[k]).row_id@ != row_id,
    decreases directives.len(),
{
    if directives.len() > 0 {
        let rest = other_directives(directives.drop_last(), row_id);
        lemma_others_kept(directives.drop_last(), row_id);
        let out = other_directives(directives, row_id);
        assert forall|k: int| 0 <= k < out.len() implies (#[trigger] out[k]).row_id@ != row_id by {
            if k < rest.len() {
                assert(out[k] == rest[k]);
            }
        }
    }
}

proof fn lemma_declares_kept(declares: Seq<McpDeclare>, row_id: Seq<char>)
    ensures
        forall|k: int|
            0 <= k < other_declares(declares, row_id).len() ==> (#[trigger] other_declares(
                declares,
                row_id,
            )[k]).row_id@ != row_id,
    decreases declares.len(),
{
    if declares.len() > 0 {
        let rest = other_declares(declares.drop_last(), row_id);
        lemma_declares_kept(declares.drop_last(), row_id);
        let out = other_declares(declares, row_id);
        assert forall|k: int| 0 <= k < out.len() implies (#[trigger] out[k]).row_id@ != row_id by {
            if k < rest.len() {
                assert(out[k] == rest[k]);
            }
        }
    }
}

proof fn lemma_no_declaration(block: McpBlock, row_id: Seq<char>, i: int)
    requires
        0 <= i <= block.declares@.len(),
        forall|k: int|
            0 <= k < block.declares@.len() ==> (#[trigger] block.declares@[k]).row_id@ != row_id,
    ensures
        block.declaration(row_id, i) is None,
    decreases block.declares@.len() - i,
{
    if i < block.declares@.len() {
        lemma_no_declaration(block, row_id, i + 1);
    }
}

/// A server that was removed is gone from the block, with everything that the block said of its row.
pub proof fn law_removed_servers_are_gone(block: McpBlock, next: McpBlock, row_id: Seq<char>)
    requires
        next.declares@ == other_declares(block.declares@, row_id),
        next.directives@ == other_directives(block.directives@, row_id),
    ensures
        next.origin(row_id) == McpOrigin::External,
        next.directive(row_id, 0) is None,
{
    lemma_others_kept(block.directives@, row_id);
    lemma_declares_kept(block.declares@, row_id);
    lemma_no_declaration(next, row_id, 0);
    lemma_directive(next, row_id, 0);
    if next.directive(row_id, 0) is Some {
        let k = next.directive(row_id, 0)->0;
        assert(next.directives@[k].row_id@ != row_id);
    }
}

} // verus!
