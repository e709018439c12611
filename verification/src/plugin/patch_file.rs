//! Health of a profile's patch file: what is wrong with one that the service cannot parse, and how
//! it is rebuilt without losing rows.

use crate::model;
use crate::model::CharSet;
use crate::plugin::managed::{
    block_around, block_sequence, body_read, is_block_sequence, managed, managed_family, mark_begin,
    mark_end, outside, read_body, render_block_body, split_outside,
};
use crate::text;
use crate::text_lemmas::{lemma_lines_append, lemma_one_line, lemma_trim_nothing};
use crate::text_map;
use vstd::prelude::*;

verus! {

/// What a fresh patch file holds: a head of comments and an empty array.
pub const PROFILE_PATCH_TEMPLATE: &'static str = "# Your patch layer for this dsh profile, applied after every bundle layer:\n# a top-level YAML array of loader patch entries (id-targeted config\n# overrides, disables, and insert lists; `!!js` expressions allowed).\n[]\n";

/// The first line of the template, by which a file that was written twice is told.
pub const HEAD_SIGNATURE: &'static str = "# Your patch layer for this dsh profile";

/// The file holds the placeholder of an empty array.
pub open spec fn has_placeholder(lines: Seq<Seq<char>>) -> bool {
    exists|i: int| 0 <= i < lines.len() && model::trim(#[trigger] lines[i]) == "[]"@
}

/// A line that has no place in a top-level array.
pub open spec fn stray(line: Seq<char>) -> bool {
    let t = model::trim(line);
    &&& t.len() > 0
    &&& t[0] != '#'
    &&& !model::starts_with(t, "- "@)
    &&& !(line[0] == ' ' || line[0] == '\t')
}

/// The first stray line from position `i` on, with its number.
pub open spec fn first_stray(lines: Seq<Seq<char>>, i: int) -> Seq<char>
    decreases lines.len() - i,
{
    if i < 0 || i >= lines.len() {
        "未知位置"@
    } else if stray(lines[i]) {
        "第 "@ + model::decimal((i + 1) as nat) + " 行: "@ + model::trim(lines[i])
    } else {
        first_stray(lines, i + 1)
    }
}

/// What is wrong with a patch file.
pub open spec fn ailment(content: Seq<char>) -> Option<Seq<char>> {
    let b = model::count(content, managed_family().begin());
    let e = model::count(content, managed_family().end());
    let lines = model::lines(content);
    let heads = model::count(content, HEAD_SIGNATURE@);
    if model::blank(content) {
        None
    } else if b != e {
        Some(
            "受管区块 marker 不成对（起始 "@ + model::decimal(b) + " 个 / 结束 "@ + model::decimal(e)
                + " 个）"@,
        )
    } else if b > 1 {
        Some(
            "受管区块 marker 重复（起始 "@ + model::decimal(b)
                + " 个，应为 1）——文件可能被重复写入或外部工具拼接损坏"@,
        )
    } else if !has_placeholder(lines) && !block_sequence(content) {
        Some(
            "顶层不是 YAML 数组（既不是 `[]` 也不是块序列）："@ + first_stray(lines, 0)
                + "——文件可能被外部工具写坏"@,
        )
    } else if heads > 1 {
        Some(
            "模板头重复出现 "@ + model::decimal(heads) + " 次——文件被重复拼接（外部工具写坏）"@,
        )
    } else {
        None
    }
}

fn find_placeholder(lines: &Vec<String>) -> (b: bool)
    ensures
        b == has_placeholder(model::texts(lines@)),
{
    let mut i: usize = 0;
    while i < lines.len()
        invariant
            i <= lines.len(),
            forall|j: int|
                0 <= j < i ==> model::trim(#[trigger] model::texts(lines@)[j]) != "[]"@,
        decreases lines.len() - i,
    {
        if text::same(text::trim(lines[i].as_str()).as_str(), "[]") {
            proof {
                assert(model::trim(model::texts(lines@)[i as int]) == "[]"@);
            }
            return true;
        }
        i += 1;
    }
    false
}

fn is_stray(line: &str) -> (b: bool)
    ensures
        b == stray(line@),
{
    let t = text::trim(line);
    let v = text::chars_of(t.as_str());
    let w = text::chars_of(line);
    if v.len() == 0 {
        return false;
    }
    proof {
        if line@.len() == 0 {
            crate::text_lemmas::lemma_trim_nothing(line@, CharSet::White);
        }
    }
    v[0] != '#' && !text::starts_with(t.as_str(), "- ") && !(w[0] == ' ' || w[0] == '\t')
}

fn find_stray(lines: &Vec<String>) -> (r: String)
    ensures
        r@ == first_stray(model::texts(lines@), 0),
{
    let mut i: usize = 0;
    while i < lines.len()
        invariant
            i <= lines.len(),
            first_stray(model::texts(lines@), 0) == first_stray(model::texts(lines@), i as int),
        decreases lines.len() - i,
    {
        if is_stray(lines[i].as_str()) {
            return text::cat4(
                "第 ",
                text::decimal(i as u64 + 1).as_str(),
                " 行: ",
                text::trim(lines[i].as_str()).as_str(),
            );
        }
        i += 1;
    }
    "未知位置".to_owned()
}

proof fn lemma_literals_not_empty()
    ensures
        managed_family().begin().len() > 0,
        managed_family().end().len() > 0,
        HEAD_SIGNATURE@.len() > 0,
{
    reveal_strlit(" — 由启动器维护，请勿手工编辑 >>>");
    reveal_strlit(" <<<");
    reveal_strlit("# Your patch layer for this dsh profile");
}

/// Tells what is wrong with a patch file that holds `content`; `None` for a sound or missing one.
pub fn inspect_patch_file(content: Option<&str>) -> (r: Option<String>)
    ensures
        model::text_of(r) == match content {
            Some(c) => ailment(c@),
            None => None,
        },
{
    proof {
        lemma_literals_not_empty();
    }
    let content = match content {
        Some(c) => c,
        None => {
            return None;
        },
    };
    if text::blank(content) {
        return None;
    }
    let begin_count = text::count(content, mark_begin().as_str());
    let end_count = text::count(content, mark_end().as_str());
    if begin_count != end_count {
        return Some(
            text::cat5(
                "受管区块 marker 不成对（起始 ",
                text::decimal(begin_count as u64).as_str(),
                " 个 / 结束 ",
                text::decimal(end_count as u64).as_str(),
                " 个）",
            ),
        );
    }
    if begin_count > 1 {
        return Some(
            text::cat3(
                "受管区块 marker 重复（起始 ",
                text::decimal(begin_count as u64).as_str(),
                " 个，应为 1）——文件可能被重复写入或外部工具拼接损坏",
            ),
        );
    }
    let lines = text::lines(content);
    if !find_placeholder(&lines) && !is_block_sequence(content) {
        return Some(
            text::cat3(
                "顶层不是 YAML 数组（既不是 `[]` 也不是块序列）：",
                find_stray(&lines).as_str(),
                "——文件可能被外部工具写坏",
            ),
        );
    }
    let heads = text::count(content, HEAD_SIGNATURE);
    if heads > 1 {
        return Some(
            text::cat3(
                "模板头重复出现 ",
                text::decimal(heads as u64).as_str(),
                " 次——文件被重复拼接（外部工具写坏）",
            ),
        );
    }
    None
}

/// A line that belongs to some row: an item or an indented line.
pub open spec fn row_line(line: Seq<char>) -> bool {
    let t = model::trim_start(line, CharSet::White);
    &&& t.len() > 0
    &&& t[0] != '#'
    &&& model::starts_with(t, "- "@) || line[0] == ' ' || line[0] == '\t'
}

/// The row lines among the given ones, each once, in the order in which they first occur.
pub open spec fn rescued(lines: Seq<Seq<char>>) -> Seq<Seq<char>>
    decreases lines.len(),
{
    if lines.len() == 0 {
        seq![]
    } else {
        let rest = rescued(lines.drop_last());
        if row_line(lines.last()) && !rest.contains(lines.last()) {
            rest.push(lines.last())
        } else {
            rest
        }
    }
}

/// The lines outside the managed block; all of them where there is no proper block.
pub open spec fn outside_lines(content: Seq<char>) -> Seq<Seq<char>> {
    match outside(content, managed_family()) {
        Ok(Some((before, after))) => model::lines(before) + model::lines(after),
        _ => model::lines(content),
    }
}

/// The body of the managed block, if there is one that is not blank.
pub open spec fn kept_body(content: Seq<char>) -> Option<Seq<char>> {
    match body_read(seq![], Some(content), managed_family()) {
        Ok(Some(body)) => if model::blank(body) {
            None
        } else {
            Some(body)
        },
        _ => None,
    }
}

/// The template without its placeholder.
pub open spec fn template_head() -> Seq<char> {
    let t = model::trim_end(PROFILE_PATCH_TEMPLATE@, CharSet::Only('\n'));
    match model::strip_suffix(t, "[]"@) {
        Some(head) => model::trim_end(head, CharSet::White),
        None => t,
    }
}

/// Each line followed by a line feed.
pub open spec fn on_lines(lines: Seq<Seq<char>>) -> Seq<char>
    decreases lines.len(),
{
    if lines.len() == 0 {
        seq![]
    } else {
        on_lines(lines.drop_last()) + lines.last() + "\n"@
    }
}

/// What a broken patch file is replaced by.
pub open spec fn healed_content(content: Seq<char>) -> Seq<char> {
    let rows = rescued(outside_lines(content));
    match kept_body(content) {
        None => if rows.len() == 0 {
            PROFILE_PATCH_TEMPLATE@
        } else {
            template_head() + "\n"@ + on_lines(rows)
        },
        Some(body) => template_head() + "\n"@ + on_lines(rows) + block_around(body) + "\n"@,
    }
}

fn is_row_line(line: &str) -> (b: bool)
    ensures
        b == row_line(line@),
{
    let t = text::trim_start(line, CharSet::White);
    let v = text::chars_of(t.as_str());
    if v.len() == 0 || v[0] == '#' {
        return false;
    }
    let w = text::chars_of(line);
    proof {
        if line@.len() == 0 {
            assert(model::trim_start(line@, CharSet::White) =~= line@);
        }
    }
    text::starts_with(t.as_str(), "- ") || w[0] == ' ' || w[0] == '\t'
}

fn rescue_into(rows: &mut Vec<String>, lines: &Vec<String>, done: Ghost<Seq<Seq<char>>>)
    requires
        model::texts(old(rows)@) == rescued(done@),
    ensures
        model::texts(final(rows)@) == rescued(done@ + model::texts(lines@)),
{
    let ghost all = model::texts(lines@);
    let mut i: usize = 0;
    proof {
        assert(done@ + all.take(0) =~= done@);
    }
    while i < lines.len()
        invariant
            all == model::texts(lines@),
            i <= lines.len(),
            model::texts(rows@) == rescued(done@ + all.take(i as int)),
        decreases lines.len() - i,
    {
        let ghost next = done@ + all.take(i as int + 1);
        let ghost before = model::texts(rows@);
        proof {
            assert(next.drop_last() =~= done@ + all.take(i as int));
            assert(next.last() == lines@[i as int]@);
        }
        if is_row_line(lines[i].as_str()) && !text_map::holds(rows, lines[i].as_str()) {
            rows.push(lines[i].clone());
            proof {
                assert(model::texts(rows@) =~= before.push(lines@[i as int]@));
            }
        }
        i += 1;
    }
    proof {
        assert(all.take(all.len() as int) =~= all);
    }
}

/// What a patch file is replaced by, and what of it was kept.
pub struct Healed {
    pub content: String,
    /// How many lines outside the managed block were kept.
    pub user_lines: usize,
    pub block_kept: bool,
}

/// Rebuilds a patch file that holds `content`.
pub fn heal_patch_file(content: &str) -> (r: Healed)
    ensures
        r.content@ == healed_content(content@),
        r.user_lines == rescued(outside_lines(content@)).len(),
        r.block_kept == (kept_body(content@) is Some),
{
    let none = String::new();
    proof {
        assert(none@ =~= seq![]);
    }
    let body = match read_body(none.as_str(), Some(content), managed()) {
        Ok(Some(body)) => if text::blank(body.as_str()) {
            None
        } else {
            Some(body)
        },
        _ => None,
    };
    let mut rows: Vec<String> = Vec::new();
    proof {
        assert(model::texts(rows@) =~= rescued(seq![]));
    }
    match split_outside(content, managed()) {
        Ok(Some((before, after))) => {
            let first = text::lines(before.as_str());
            let second = text::lines(after.as_str());
            rescue_into(&mut rows, &first, Ghost(Seq::<Seq<char>>::empty()));
            proof {
                assert(Seq::<Seq<char>>::empty() + model::lines(before@) =~= model::lines(before@));
            }
            rescue_into(&mut rows, &second, Ghost(model::lines(before@)));
        },
        _ => {
            let all = text::lines(content);
            rescue_into(&mut rows, &all, Ghost(Seq::<Seq<char>>::empty()));
            proof {
                assert(Seq::<Seq<char>>::empty() + model::lines(content@) =~= model::lines(
                    content@,
                ));
            }
        },
    }
    proof {
        assert(rows.len() == model::texts(rows@).len());
    }
    if body.is_none() && rows.len() == 0 {
        return Healed {
            content: PROFILE_PATCH_TEMPLATE.to_owned(),
            user_lines: 0,
            block_kept: false,
        };
    }
    let trimmed = text::trim_end(PROFILE_PATCH_TEMPLATE, CharSet::Only('\n'));
    let head = match text::strip_suffix(trimmed.as_str(), "[]") {
        Some(h) => text::trim_end(h.as_str(), CharSet::White),
        None => trimmed,
    };
    let mut out = text::cat2(head.as_str(), "\n");
    let ghost top = out@;
    let ghost all = model::texts(rows@);
    let mut i: usize = 0;
    proof {
        assert(all.take(0) =~= seq![]);
        assert(top + on_lines(all.take(0)) =~= top);
    }
    while i < rows.len()
        invariant
            all == model::texts(rows@),
            i <= rows.len(),
            out@ == top + on_lines(all.take(i as int)),
        decreases rows.len() - i,
    {
        let ghost before = on_lines(all.take(i as int));
        proof {
            assert(all.take(i as int + 1).drop_last() =~= all.take(i as int));
            assert(all.take(i as int + 1).last() == rows@[i as int]@);
        }
        out.append(rows[i].as_str());
        out.append("\n");
        i += 1;
        proof {
            assert(out@ =~= top + (before + rows@[i - 1]@ + "\n"@));
        }
    }
    proof {
        assert(all.take(all.len() as int) =~= all);
    }
    let block_kept = body.is_some();
    if let Some(b) = &body {
        out.append(render_block_body(b.as_str()).as_str());
        out.append("\n");
    }
    Healed { content: out, user_lines: rows.len(), block_kept }
}

/// What the user is told of a repaired file.
pub fn heal_message(path: &str, backup: &str, healed: &Healed) -> (r: String)
    ensures
        r@ == "已修复 "@ + path@ + "（原文件备份到 "@ + backup@ + "；保留 "@ + model::decimal(
            healed.user_lines as nat,
        ) + " 行用户内容"@ + (if healed.block_kept {
            "与受管区块"@
        } else {
            seq![]
        }) + "）"@,
{
    let mut out = text::cat7(
        "已修复 ",
        path,
        "（原文件备份到 ",
        backup,
        "；保留 ",
        text::decimal(healed.user_lines as u64).as_str(),
        " 行用户内容",
    );
    if healed.block_kept {
        out.append("与受管区块");
    } else {
        proof {
            assert(out@ + Seq::<char>::empty() =~= out@);
        }
    }
    out.append("）");
    out
}

pub proof fn lemma_rescued(lines: Seq<Seq<char>>, line: Seq<char>)
    ensures
        rescued(lines).contains(line) <==> lines.contains(line) && row_line(line),
        rescued(lines).no_duplicates(),
    decreases lines.len(),
{
    if lines.len() > 0 {
        let rest = lines.drop_last();
        let kept = rescued(rest);
        let out = rescued(lines);
        lemma_rescued(rest, line);
        if rest.contains(line) {
            let i = choose|i: int| 0 <= i < rest.len() && rest[i] == line;
            assert(lines[i] == line);
        }
        if lines.contains(line) && !rest.contains(line) {
            let i = choose|i: int| 0 <= i < lines.len() && lines[i] == line;
            if i < rest.len() {
                assert(rest[i] == line);
            }
        }
        if line == lines.last() {
            assert(lines[lines.len() - 1] == line);
        }
        lemma_rescued(rest, lines.last());
        if row_line(lines.last()) && !kept.contains(lines.last()) {
            assert(out == kept.push(lines.last()));
            if kept.contains(line) {
                let i = choose|i: int| 0 <= i < kept.len() && kept[i] == line;
                assert(out[i] == line);
            }
            if line == lines.last() {
                assert(out[kept.len() as int] == line);
            }
            if out.contains(line) && line != lines.last() {
                let i = choose|i: int| 0 <= i < out.len() && out[i] == line;
                assert(kept[i] == line);
            }
            assert forall|i: int, j: int|
                0 <= i < out.len() && 0 <= j < out.len() && i != j implies out[i] != out[j] by {
                if i < kept.len() && j < kept.len() {
                    assert(kept[i] != kept[j]);
                } else if i < kept.len() {
                    assert(kept.contains(kept[i]));
                } else if j < kept.len() {
                    assert(kept.contains(kept[j]));
                }
            }
        }
    }
}

/// Rebuilding a file loses no row line outside the managed block and keeps none of them twice.
pub proof fn law_healing_keeps_rows(content: Seq<char>, line: Seq<char>)
    ensures
        rescued(outside_lines(content)).contains(line) <==> outside_lines(content).contains(line)
            && row_line(line),
        rescued(outside_lines(content)).no_duplicates(),
{
    lemma_rescued(outside_lines(content), line);
}

/// A file in which nothing is worth keeping is replaced by the head of comments and, as its last
/// line, an empty array.
pub proof fn law_a_lost_file_becomes_an_empty_array(content: Seq<char>)
    requires
        kept_body(content) is None,
        rescued(outside_lines(content)).len() == 0,
    ensures
        model::lines(healed_content(content)).len() > 0,
        model::lines(healed_content(content)).last() == "[]"@,
        has_placeholder(model::lines(healed_content(content))),
{
    reveal_strlit(
        "# Your patch layer for this dsh profile, applied after every bundle layer:\n# a top-level YAML array of loader patch entries (id-targeted config\n# overrides, disables, and insert lists; `!!js` expressions allowed).\n[]\n",
    );
    reveal_strlit("[]");
    let t = PROFILE_PATCH_TEMPLATE@;
    let n = t.len() - 3;
    let head = t.take(n);
    assert(head.last() == '\n');
    assert(t =~= head + "[]"@.push('\n'));
    lemma_lines_append(head, "[]"@.push('\n'));
    lemma_one_line("[]"@);
    lemma_trim_nothing("[]"@, CharSet::White);
    let lines = model::lines(t);
    assert(lines[lines.len() - 1] == "[]"@);
}

} // verus!
