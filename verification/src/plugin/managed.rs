//! Managed blocks in `cordis.patch.yml`.
//!
//! The launcher owns only what stands between a pair of marker lines; everything outside them
//! belongs to the user or to another block family. This module says what a file holds after a block
//! is written, replaced or removed, and what is read back from it. Reading and writing the files
//! themselves is left to the caller.

use crate::model;
use crate::model::CharSet;
use crate::text;
use vstd::prelude::*;

verus! {

pub const MARK_BEGIN_PREFIX: &'static str = "# >>> dsh-launcher managed ";

pub const MARK_END_PREFIX: &'static str = "# <<< dsh-launcher managed ";

pub const SHARED_BEGIN_PREFIX: &'static str = "# >>> dsh-launcher shared ";

pub const SHARED_END_PREFIX: &'static str = "# <<< dsh-launcher shared ";

pub const MARK_VERSION: &'static str = "v1";

/// A family of blocks: the texts that its markers are made of.
#[derive(Debug, Clone, Copy)]
pub struct BlockFamily {
    /// What a start marker begins with; ends in a space.
    pub begin_prefix: &'static str,
    /// What an end marker begins with; ends in a space.
    pub end_prefix: &'static str,
    /// The block format's version.
    pub version: &'static str,
    /// What the block is for, in words.
    pub description: &'static str,
}

/// The family of plugin rows that are switched on and off.
pub open spec fn managed_family() -> BlockFamily {
    BlockFamily {
        begin_prefix: MARK_BEGIN_PREFIX,
        end_prefix: MARK_END_PREFIX,
        version: MARK_VERSION,
        description: "插件受管区块",
    }
}

/// The family of shared skill and instruction rows.
pub open spec fn shared_family() -> BlockFamily {
    BlockFamily {
        begin_prefix: SHARED_BEGIN_PREFIX,
        end_prefix: SHARED_END_PREFIX,
        version: MARK_VERSION,
        description: "技能共享区块",
    }
}

/// The family of plugin rows that are switched on and off.
pub fn managed() -> (f: BlockFamily)
    ensures
        f == managed_family(),
{
    BlockFamily {
        begin_prefix: MARK_BEGIN_PREFIX,
        end_prefix: MARK_END_PREFIX,
        version: MARK_VERSION,
        description: "插件受管区块",
    }
}

/// The family of shared skill and instruction rows.
pub fn shared() -> (f: BlockFamily)
    ensures
        f == shared_family(),
{
    BlockFamily {
        begin_prefix: SHARED_BEGIN_PREFIX,
        end_prefix: SHARED_END_PREFIX,
        version: MARK_VERSION,
        description: "技能共享区块",
    }
}

impl BlockFamily {
    /// The start marker.
    pub open spec fn begin(self) -> Seq<char> {
        self.begin_prefix@ + self.version@ + " — 由启动器维护，请勿手工编辑 >>>"@
    }

    /// The end marker.
    pub open spec fn end(self) -> Seq<char> {
        self.end_prefix@ + self.version@ + " <<<"@
    }

    pub fn mark_begin(&self) -> (r: String)
        ensures
            r@ == self.begin(),
    {
        text::cat3(self.begin_prefix, self.version, " — 由启动器维护，请勿手工编辑 >>>")
    }

    pub fn mark_end(&self) -> (r: String)
        ensures
            r@ == self.end(),
    {
        text::cat3(self.end_prefix, self.version, " <<<")
    }
}

pub fn mark_begin() -> (r: String)
    ensures
        r@ == managed_family().begin(),
{
    managed().mark_begin()
}

pub fn mark_end() -> (r: String)
    ensures
        r@ == managed_family().end(),
{
    managed().mark_end()
}

pub fn shared_mark_begin() -> (r: String)
    ensures
        r@ == shared_family().begin(),
{
    shared().mark_begin()
}

pub fn shared_mark_end() -> (r: String)
    ensures
        r@ == shared_family().end(),
{
    shared().mark_end()
}

/// One row of the managed block: a plugin row and whether it is switched off.
#[derive(Debug, PartialEq, Eq)]
pub struct ManagedEntry {
    /// The row's id.
    pub id: String,
    /// Whether the row is to be disabled.
    pub disabled: bool,
    /// The package that the row belongs to; written as a comment only.
    pub package: Option<String>,
}

/// What a `ManagedEntry` holds.
pub ghost struct EntryText {
    pub id: Seq<char>,
    pub disabled: bool,
    pub package: Option<Seq<char>>,
}

impl View for ManagedEntry {
    type V = EntryText;

    open spec fn view(&self) -> EntryText {
        EntryText {
            id: self.id@,
            disabled: self.disabled,
            package: model::text_of(self.package),
        }
    }
}

pub open spec fn entry_texts(v: Seq<ManagedEntry>) -> Seq<EntryText> {
    v.map_values(|e: ManagedEntry| e@)
}

impl ManagedEntry {
    pub fn new(id: String, disabled: bool, package: Option<String>) -> (r: Self)
        ensures
            r.id == id,
            r.disabled == disabled,
            r.package == package,
    {
        Self { id, disabled, package }
    }

    /// Another entry with the same contents.
    pub fn copy(&self) -> (r: Self)
        ensures
            r@ == self@,
    {
        let package = match &self.package {
            Some(p) => Some(p.clone()),
            None => None,
        };
        Self { id: self.id.clone(), disabled: self.disabled, package }
    }
}

/// Whether a file has to be written.
#[derive(Debug, Clone, Copy, PartialEq, Eq, Structural)]
pub enum BlockOutcome {
    Unchanged,
    Written,
}

/// What writing a block comes to: whether the file changes, and what it holds afterwards
/// (`None`: there is no file).
#[derive(Debug)]
pub struct BlockEdit {
    pub outcome: BlockOutcome,
    pub content: Option<String>,
}

/// What a `BlockEdit` holds.
pub ghost struct EditText {
    pub written: bool,
    pub content: Option<Seq<char>>,
}

impl View for BlockEdit {
    type V = EditText;

    open spec fn view(&self) -> EditText {
        EditText {
            written: self.outcome == BlockOutcome::Written,
            content: model::text_of(self.content),
        }
    }
}

pub open spec fn edit_of(r: Result<BlockEdit, String>) -> Result<EditText, Seq<char>> {
    match r {
        Ok(e) => Ok(e@),
        Err(m) => Err(m@),
    }
}

/// A character that a row id may hold.
pub open spec fn row_id_char(c: char) -> bool {
    model::ascii_alnum(c) || c == '.' || c == '_' || c == '-' || c == '@' || c == '/'
}

/// Between 1 and 200 bytes, all of them letters, digits or one of `._-@/`.
pub open spec fn valid_row_id(id: Seq<char>) -> bool {
    &&& id.len() > 0
    &&& model::byte_len(id) <= 200
    &&& forall|i: int| 0 <= i < id.len() ==> row_id_char(#[trigger] id[i])
}

/// What is said of an invalid row id.
pub open spec fn row_id_complaint(id: Seq<char>) -> Seq<char> {
    if id.len() == 0 || model::byte_len(id) > 200 {
        "非法行 id: "@ + text::debug_form(id)
    } else {
        "非法行 id（含不安全字符）: "@ + text::debug_form(id)
    }
}

fn is_row_id_char(c: char) -> (b: bool)
    ensures
        b == row_id_char(c),
{
    let n: u32 = c as u32;
    (0x30 <= n && n <= 0x39) || (0x41 <= n && n <= 0x5a) || (0x61 <= n && n <= 0x7a) || c == '.'
        || c == '_' || c == '-' || c == '@' || c == '/'
}

/// Accepts exactly the valid row ids.
pub fn validate_row_id(id: &str) -> (r: Result<(), String>)
    ensures
        r is Ok <==> valid_row_id(id@),
        match r {
            Ok(_) => true,
            Err(m) => m@ == row_id_complaint(id@),
        },
{
    if id.is_empty() || text::byte_len(id) > 200 {
        return Err(text::cat2("非法行 id: ", text::debug_text(id).as_str()));
    }
    let v = text::chars_of(id);
    let mut i: usize = 0;
    while i < v.len()
        invariant
            v@ == id@,
            id@.len() > 0,
            model::byte_len(id@) <= 200,
            i <= v.len(),
            forall|j: int| 0 <= j < i ==> row_id_char(#[trigger] id@[j]),
        decreases v.len() - i,
    {
        if !is_row_id_char(v[i]) {
            proof {
                assert(!row_id_char(id@[i as int]));
            }
            return Err(
                text::cat2("非法行 id（含不安全字符）: ", text::debug_text(id).as_str()),
            );
        }
        i += 1;
    }
    Ok(())
}

/// The YAML single-quoted scalar that stands for `value`.
pub open spec fn quoted(value: Seq<char>) -> Seq<char> {
    "'"@ + model::replace_char(value, '\'', "''"@) + "'"@
}

pub fn yaml_quote(value: &str) -> (r: String)
    ensures
        r@ == quoted(value@),
{
    text::cat3("'", text::replace_char(value, '\'', "''").as_str(), "'")
}

/// The line ending that a file uses: CRLF if it holds one, else LF.
pub open spec fn eol_of(content: Seq<char>) -> Seq<char> {
    if model::contains(content, "\r\n"@) {
        "\r\n"@
    } else {
        "\n"@
    }
}

pub fn detect_eol(content: &str) -> (r: &'static str)
    ensures
        r@ == eol_of(content@),
{
    if text::contains(content, "\r\n") {
        "\r\n"
    } else {
        "\n"
    }
}

/// `line` up to the first ` # `.
pub open spec fn without_comment(line: Seq<char>) -> Seq<char> {
    match model::find(line, " # "@) {
        Some(i) => line.take(i),
        None => line,
    }
}

pub fn strip_inline_comment(line: &str) -> (r: String)
    ensures
        r@ == without_comment(line@),
{
    match text::find(line, " # ") {
        Some(i) => {
            let v = text::chars_of(line);
            let r = text::string_of(&v, 0, i);
            proof {
                assert(r@ =~= line@.take(i as int));
            }
            r
        },
        None => line.to_owned(),
    }
}

/// What one line of a managed block adds to the rows read so far.
#[verifier::opaque]
pub open spec fn parse_row(rows: Seq<EntryText>, raw: Seq<char>) -> Result<
    Seq<EntryText>,
    Seq<char>,
> {
    let line = model::drop_cr(raw);
    if model::blank(line) {
        Ok(rows)
    } else {
        match model::strip_prefix(line, "- id: "@) {
            Some(rest) => {
                let id = model::trim(without_comment(rest));
                if valid_row_id(id) {
                    Ok(rows.push(EntryText { id, disabled: false, package: None }))
                } else {
                    Err(row_id_complaint(id))
                }
            },
            None => match model::strip_prefix(line, "  disabled: "@) {
                Some(rest) => {
                    let value = model::trim(without_comment(rest));
                    if value != "true"@ && value != "false"@ {
                        Err(
                            "受管区块 disabled 取值非法（只允许 true/false）: "@ + text::debug_form(value),
                        )
                    } else if rows.len() == 0 {
                        Err("受管区块出现 disabled 但没有对应的 - id 行"@)
                    } else {
                        let last = EntryText { disabled: value == "true"@, ..rows.last() };
                        Ok(rows.drop_last().push(last))
                    }
                },
                None => Err(
                    "受管区块出现非法行（只允许 `- id:` 与 `  disabled:`）: "@ + model::trim(line),
                ),
            },
        }
    }
}

/// The rows that the lines of a managed block stand for.
pub open spec fn parse_rows(lines: Seq<Seq<char>>) -> Result<Seq<EntryText>, Seq<char>>
    decreases lines.len(),
{
    if lines.len() == 0 {
        Ok(seq![])
    } else {
        match parse_rows(lines.drop_last()) {
            Ok(rows) => parse_row(rows, lines.last()),
            Err(m) => Err(m),
        }
    }
}

proof fn lemma_parse_rows_fails(lines: Seq<Seq<char>>, n: int)
    requires
        0 <= n <= lines.len(),
        parse_rows(lines.take(n)) is Err,
    ensures
        parse_rows(lines) == parse_rows(lines.take(n)),
    decreases lines.len() - n,
{
    if n == lines.len() {
        assert(lines.take(n) =~= lines);
    } else {
        assert(lines.take(n + 1).drop_last() =~= lines.take(n));
        lemma_parse_rows_fails(lines, n + 1);
    }
}

pub open spec fn rows_of(r: Result<Vec<ManagedEntry>, String>) -> Result<
    Seq<EntryText>,
    Seq<char>,
> {
    match r {
        Ok(v) => Ok(entry_texts(v@)),
        Err(m) => Err(m@),
    }
}

/// Takes one line of a managed block into account.
fn parse_row_into(rows: &mut Vec<ManagedEntry>, raw: &str) -> (r: Result<(), String>)
    ensures
        match r {
            Ok(_) => parse_row(entry_texts(old(rows)@), raw@) == Ok::<Seq<EntryText>, Seq<char>>(
                entry_texts(final(rows)@),
            ),
            Err(m) => parse_row(entry_texts(old(rows)@), raw@) == Err::<
                Seq<EntryText>,
                Seq<char>,
            >(m@),
        },
{
    let ghost before = entry_texts(rows@);
    proof {
        reveal(parse_row);
    }
    let line = match text::strip_suffix(raw, "\r") {
        Some(l) => l,
        None => raw.to_owned(),
    };
    proof {
        reveal_strlit("\r");
        lemma_drop_cr(raw@);
    }
    if text::blank(line.as_str()) {
        return Ok(());
    }
    if let Some(rest) = text::strip_prefix(line.as_str(), "- id: ") {
        let id = text::trim(strip_inline_comment(rest.as_str()).as_str());
        match validate_row_id(id.as_str()) {
            Ok(_) => {},
            Err(m) => {
                return Err(m);
            },
        }
        let entry = ManagedEntry { id, disabled: false, package: None };
        rows.push(entry);
        proof {
            assert(entry_texts(rows@) =~= before.push(entry@));
        }
        return Ok(());
    }
    if let Some(rest) = text::strip_prefix(line.as_str(), "  disabled: ") {
        let value = text::trim(strip_inline_comment(rest.as_str()).as_str());
        let on = text::same(value.as_str(), "true");
        if !on && !text::same(value.as_str(), "false") {
            return Err(
                text::cat2(
                    "受管区块 disabled 取值非法（只允许 true/false）: ",
                    text::debug_text(value.as_str()).as_str(),
                ),
            );
        }
        match rows.pop() {
            Some(last) => {
                let entry = ManagedEntry { id: last.id, disabled: on, package: last.package };
                proof {
                    assert(before.last() == last@);
                }
                rows.push(entry);
                proof {
                    assert(entry_texts(rows@) =~= before.drop_last().push(entry@));
                }
                return Ok(());
            },
            None => {
                return Err("受管区块出现 disabled 但没有对应的 - id 行".to_owned());
            },
        }
    }
    Err(
        text::cat2(
            "受管区块出现非法行（只允许 `- id:` 与 `  disabled:`）: ",
            text::trim(line.as_str()).as_str(),
        ),
    )
}

proof fn lemma_drop_cr(s: Seq<char>)
    ensures
        match model::strip_suffix(s, seq!['\r']) {
            Some(t) => model::drop_cr(s) == t,
            None => model::drop_cr(s) == s,
        },
        "\r"@ == seq!['\r'],
{
    reveal_strlit("\r");
    assert("\r"@ =~= seq!['\r']);
    if s.len() > 0 {
        if s.last() == '\r' {
            assert(s.subrange(s.len() - 1, s.len() as int) =~= seq!['\r']);
            assert(s.take(s.len() - 1) =~= s.drop_last());
        } else {
            assert(s.subrange(s.len() - 1, s.len() as int)[0] == s.last());
        }
    }
}

/// The rows of a managed block's text.
pub fn parse_block(block: &str) -> (r: Result<Vec<ManagedEntry>, String>)
    ensures
        rows_of(r) == parse_rows(model::lines(block@)),
{
    let lines = text::lines(block);
    let mut rows: Vec<ManagedEntry> = Vec::new();
    let mut i: usize = 0;
    let ghost all = model::lines(block@);
    proof {
        assert(all.take(0) =~= seq![]);
        assert(entry_texts(rows@) =~= seq![]);
    }
    while i < lines.len()
        invariant
            all == model::lines(block@),
            model::texts(lines@) == all,
            i <= lines.len(),
            parse_rows(all.take(i as int)) == Ok::<Seq<EntryText>, Seq<char>>(entry_texts(rows@)),
        decreases lines.len() - i,
    {
        proof {
            assert(all.take(i as int + 1).drop_last() =~= all.take(i as int));
            assert(all[i as int] == lines@[i as int]@);
        }
        match parse_row_into(&mut rows, lines[i].as_str()) {
            Ok(_) => {},
            Err(m) => {
                proof {
                    lemma_parse_rows_fails(all, i as int + 1);
                }
                return Err(m);
            },
        }
        i += 1;
    }
    proof {
        assert(all.take(all.len() as int) =~= all);
    }
    Ok(rows)
}

/// Where a block stands in a text.
pub enum Located {
    /// There is no marker of the family.
    Absent,
    /// There is one block.
    Block { before: String, block: String, after: String },
    /// The markers do not form one block.
    Broken(String),
}

/// What a `Located` holds.
pub ghost enum Place {
    Absent,
    Block { before: Seq<char>, block: Seq<char>, after: Seq<char> },
    Broken(Seq<char>),
}

impl View for Located {
    type V = Place;

    open spec fn view(&self) -> Place {
        match self {
            Located::Absent => Place::Absent,
            Located::Block { before, block, after } => Place::Block {
                before: before@,
                block: block@,
                after: after@,
            },
            Located::Broken(m) => Place::Broken(m@),
        }
    }
}

/// Where the block with the given markers stands in `content`: there must be exactly one start
/// marker and one end marker, the end after the start.
pub open spec fn place(content: Seq<char>, begin: Seq<char>, end: Seq<char>) -> Place {
    let b = model::count(content, begin);
    let e = model::count(content, end);
    if b == 0 && e == 0 {
        Place::Absent
    } else if b != 1 || e != 1 {
        Place::Broken(
            "受管区块 marker 不成对或重复（起始 "@ + model::decimal(b) + " 个 / 结束 "@ + model::decimal(e)
                + " 个）"@,
        )
    } else {
        match model::find(content, begin) {
            None => Place::Broken("受管区块缺少起始 marker"@),
            Some(i) => match model::find_at(content, end, i + begin.len()) {
                None => Place::Broken("受管区块缺少结束 marker"@),
                Some(j) => Place::Block {
                    before: content.take(i),
                    block: content.subrange(i + begin.len(), j),
                    after: content.skip(j + end.len()),
                },
            },
        }
    }
}

/// Cuts a text at the markers of a block.
pub fn locate_with_markers(content: &str, begin_marker: &str, end_marker: &str) -> (r: Located)
    requires
        begin_marker@.len() > 0,
        end_marker@.len() > 0,
    ensures
        r@ == place(content@, begin_marker@, end_marker@),
{
    let begin_count = text::count(content, begin_marker);
    let end_count = text::count(content, end_marker);
    if begin_count == 0 && end_count == 0 {
        return Located::Absent;
    }
    if begin_count != 1 || end_count != 1 {
        return Located::Broken(
            text::cat5(
                "受管区块 marker 不成对或重复（起始 ",
                text::decimal(begin_count as u64).as_str(),
                " 个 / 结束 ",
                text::decimal(end_count as u64).as_str(),
                " 个）",
            ),
        );
    }
    let v = text::chars_of(content);
    let b = text::chars_of(begin_marker);
    let e = text::chars_of(end_marker);
    match text::find_in(&v, &b, 0) {
        None => Located::Broken("受管区块缺少起始 marker".to_owned()),
        Some(i) => {
            let start = i + b.len();
            match text::find_in(&v, &e, start) {
                None => Located::Broken("受管区块缺少结束 marker".to_owned()),
                Some(j) => {
                    let before = text::string_of(&v, 0, i);
                    let block = text::string_of(&v, start, j);
                    let after = text::string_of(&v, j + e.len(), v.len());
                    proof {
                        assert(before@ =~= content@.take(i as int));
                        assert(after@ =~= content@.skip(j + e.len()));
                    }
                    Located::Block { before, block, after }
                },
            }
        },
    }
}

/// What stands before and after a family's block.
pub open spec fn outside(content: Seq<char>, family: BlockFamily) -> Result<
    Option<(Seq<char>, Seq<char>)>,
    Seq<char>,
> {
    match place(content, family.begin(), family.end()) {
        Place::Absent => Ok(None),
        Place::Broken(m) => Err(m),
        Place::Block { before, block, after } => Ok(Some((before, after))),
    }
}

pub proof fn lemma_markers_not_empty(family: BlockFamily)
    ensures
        family.begin().len() > 0,
        family.end().len() > 0,
{
    reveal_strlit(" — 由启动器维护，请勿手工编辑 >>>");
    reveal_strlit(" <<<");
}

/// What stands before and after a family's block; `None` where there is no block.
pub fn split_outside(content: &str, family: BlockFamily) -> (r: Result<
    Option<(String, String)>,
    String,
>)
    ensures
        match r {
            Ok(None) => outside(content@, family) == Ok::<
                Option<(Seq<char>, Seq<char>)>,
                Seq<char>,
            >(None),
            Ok(Some((a, b))) => outside(content@, family) == Ok::<
                Option<(Seq<char>, Seq<char>)>,
                Seq<char>,
            >(Some((a@, b@))),
            Err(m) => outside(content@, family) == Err::<
                Option<(Seq<char>, Seq<char>)>,
                Seq<char>,
            >(m@),
        },
{
    proof {
        lemma_markers_not_empty(family);
    }
    let begin = family.mark_begin();
    let end = family.mark_end();
    match locate_with_markers(content, begin.as_str(), end.as_str()) {
        Located::Absent => Ok(None),
        Located::Broken(reason) => Err(reason),
        Located::Block { before, block, after } => Ok(Some((before, after))),
    }
}

/// How many rows at the front of `rows` have an id before `id`.
pub open spec fn rank(rows: Seq<EntryText>, id: Seq<char>) -> int
    decreases rows.len(),
{
    if rows.len() == 0 || !model::precedes(rows[0].id, id) {
        0
    } else {
        1 + rank(rows.skip(1), id)
    }
}

/// `rows`, ordered by id, with `e` in its place: instead of a row with the same id if `over`,
/// else only where there is none.
pub open spec fn put(rows: Seq<EntryText>, e: EntryText, over: bool) -> Seq<EntryText> {
    let i = rank(rows, e.id);
    if i < rows.len() && rows[i].id == e.id {
        if over {
            rows.update(i, e)
        } else {
            rows
        }
    } else {
        rows.insert(i, e)
    }
}

/// `rows`, ordered by id, without the row `id`.
pub open spec fn without(rows: Seq<EntryText>, id: Seq<char>) -> Seq<EntryText> {
    let i = rank(rows, id);
    if i < rows.len() && rows[i].id == id {
        rows.remove(i)
    } else {
        rows
    }
}

/// All of `new` put into `rows` one after the other.
pub open spec fn put_all(rows: Seq<EntryText>, new: Seq<EntryText>, over: bool) -> Seq<EntryText>
    decreases new.len(),
{
    if new.len() == 0 {
        rows
    } else {
        put(put_all(rows, new.drop_last(), over), new.last(), over)
    }
}

pub open spec fn without_all(rows: Seq<EntryText>, ids: Seq<Seq<char>>) -> Seq<EntryText>
    decreases ids.len(),
{
    if ids.len() == 0 {
        rows
    } else {
        without(without_all(rows, ids.drop_last()), ids.last())
    }
}

/// The entries by id, the first of each id only.
pub open spec fn sorted_rows(entries: Seq<EntryText>) -> Seq<EntryText> {
    put_all(seq![], entries, false)
}

pub proof fn lemma_rank(rows: Seq<EntryText>, id: Seq<char>)
    ensures
        0 <= rank(rows, id) <= rows.len(),
        rank(rows, id) < rows.len() ==> !model::precedes(rows[rank(rows, id)].id, id),
        forall|j: int|
            0 <= j < rank(rows, id) ==> model::precedes(#[trigger] rows[j].id, id),
    decreases rows.len(),
{
    if rows.len() > 0 && model::precedes(rows[0].id, id) {
        lemma_rank(rows.skip(1), id);
        assert forall|j: int| 0 <= j < rank(rows, id) implies model::precedes(
            #[trigger] rows[j].id,
            id,
        ) by {
            if j > 0 {
                assert(rows[j] == rows.skip(1)[j - 1]);
            }
        }
    }
}

pub proof fn lemma_rank_is(rows: Seq<EntryText>, id: Seq<char>, n: int)
    requires
        0 <= n <= rows.len(),
        n < rows.len() ==> !model::precedes(rows[n].id, id),
        forall|j: int| 0 <= j < n ==> model::precedes(#[trigger] rows[j].id, id),
    ensures
        rank(rows, id) == n,
{
    lemma_rank(rows, id);
    let r = rank(rows, id);
    if r < n {
        assert(model::precedes(rows[r].id, id));
    }
}

fn find_rank(rows: &Vec<ManagedEntry>, id: &str) -> (i: usize)
    ensures
        i == rank(entry_texts(rows@), id@),
        i <= rows.len(),
{
    let mut i: usize = 0;
    while i < rows.len() && text::precedes(rows[i].id.as_str(), id)
        invariant
            i <= rows.len(),
            forall|j: int|
                0 <= j < i ==> model::precedes(#[trigger] entry_texts(rows@)[j].id, id@),
        decreases rows.len() - i,
    {
        i += 1;
    }
    proof {
        lemma_rank_is(entry_texts(rows@), id@, i as int);
    }
    i
}

fn put_entry(rows: &mut Vec<ManagedEntry>, e: ManagedEntry, over: bool)
    ensures
        entry_texts(final(rows)@) == put(entry_texts(old(rows)@), e@, over),
{
    let ghost before = entry_texts(rows@);
    let i = find_rank(rows, e.id.as_str());
    if i < rows.len() && text::same(rows[i].id.as_str(), e.id.as_str()) {
        if over {
            rows.set(i, e);
            proof {
                assert(entry_texts(rows@) =~= before.update(i as int, e@));
            }
        }
    } else {
        rows.insert(i, e);
        proof {
            assert(entry_texts(rows@) =~= before.insert(i as int, e@));
        }
    }
}

fn put_entries(rows: &mut Vec<ManagedEntry>, new: &[ManagedEntry], over: bool)
    ensures
        entry_texts(final(rows)@) == put_all(entry_texts(old(rows)@), entry_texts(new@), over),
{
    let ghost start = entry_texts(rows@);
    let ghost all = entry_texts(new@);
    let mut i: usize = 0;
    proof {
        assert(all.take(0) =~= seq![]);
    }
    while i < new.len()
        invariant
            all == entry_texts(new@),
            i <= new.len(),
            entry_texts(rows@) == put_all(start, all.take(i as int), over),
        decreases new.len() - i,
    {
        proof {
            assert(all.take(i as int + 1).drop_last() =~= all.take(i as int));
        }
        put_entry(rows, new[i].copy(), over);
        i += 1;
    }
    proof {
        assert(all.take(all.len() as int) =~= all);
    }
}

fn remove_ids_from(rows: &mut Vec<ManagedEntry>, ids: &[String])
    ensures
        entry_texts(final(rows)@) == without_all(entry_texts(old(rows)@), model::texts(ids@)),
{
    let ghost start = entry_texts(rows@);
    let ghost all = model::texts(ids@);
    let mut i: usize = 0;
    proof {
        assert(all.take(0) =~= seq![]);
    }
    while i < ids.len()
        invariant
            all == model::texts(ids@),
            i <= ids.len(),
            entry_texts(rows@) == without_all(start, all.take(i as int)),
        decreases ids.len() - i,
    {
        let ghost before = entry_texts(rows@);
        proof {
            assert(all.take(i as int + 1).drop_last() =~= all.take(i as int));
        }
        let n = find_rank(rows, ids[i].as_str());
        if n < rows.len() && text::same(rows[n].id.as_str(), ids[i].as_str()) {
            rows.remove(n);
            proof {
                assert(entry_texts(rows@) =~= before.remove(n as int));
            }
        }
        i += 1;
    }
    proof {
        assert(all.take(all.len() as int) =~= all);
    }
}

/// The entries by id, the first of each id only.
pub fn sorted(entries: &[ManagedEntry]) -> (r: Vec<ManagedEntry>)
    ensures
        entry_texts(r@) == sorted_rows(entry_texts(entries@)),
{
    let mut rows: Vec<ManagedEntry> = Vec::new();
    proof {
        assert(entry_texts(rows@) =~= seq![]);
    }
    put_entries(&mut rows, entries, false);
    rows
}

/// The rows of `existing` without those in `remove_ids`, and with every row of `updates` in place
/// of the one with its id; ordered by id.
pub open spec fn upserted(
    existing: Seq<EntryText>,
    updates: Seq<EntryText>,
    remove_ids: Seq<Seq<char>>,
) -> Seq<EntryText> {
    put_all(without_all(put_all(seq![], existing, true), remove_ids), updates, true)
}

pub fn upsert(
    existing: Option<Vec<ManagedEntry>>,
    updates: &[ManagedEntry],
    remove_ids: &[String],
) -> (r: Vec<ManagedEntry>)
    ensures
        entry_texts(r@) == upserted(
            match existing {
                Some(v) => entry_texts(v@),
                None => seq![],
            },
            entry_texts(updates@),
            model::texts(remove_ids@),
        ),
{
    let mut rows: Vec<ManagedEntry> = Vec::new();
    proof {
        assert(entry_texts(rows@) =~= seq![]);
    }
    if let Some(v) = &existing {
        put_entries(&mut rows, v.as_slice(), true);
    }
    remove_ids_from(&mut rows, remove_ids);
    put_entries(&mut rows, updates, true);
    rows
}

/// The two lines of a row.
pub open spec fn row_lines(e: EntryText, eol: Seq<char>) -> Seq<char> {
    "- id: "@ + e.id + match e.package {
        Some(p) => "  # plugin: "@ + p,
        None => seq![],
    } + eol + "  disabled: "@ + (if e.disabled {
        "true"@
    } else {
        "false"@
    }) + eol
}

pub open spec fn rows_text(rows: Seq<EntryText>, eol: Seq<char>) -> Seq<char>
    decreases rows.len(),
{
    if rows.len() == 0 {
        seq![]
    } else {
        rows_text(rows.drop_last(), eol) + row_lines(rows.last(), eol)
    }
}

/// The body of a managed block: its rows by id, two lines each.
pub open spec fn managed_body(entries: Seq<EntryText>, eol: Seq<char>) -> Seq<char> {
    rows_text(sorted_rows(entries), eol)
}

fn row_text(e: &ManagedEntry, eol: &str) -> (r: String)
    ensures
        r@ == row_lines(e@, eol@),
{
    let mut r = text::cat2("- id: ", e.id.as_str());
    match &e.package {
        Some(p) => {
            let note = text::cat2("  # plugin: ", p.as_str());
            r.append(note.as_str());
        },
        None => {
            proof {
                assert(r@ + Seq::<char>::empty() =~= r@);
            }
        },
    }
    r.append(eol);
    r.append("  disabled: ");
    r.append(
        if e.disabled {
            "true"
        } else {
            "false"
        },
    );
    r.append(eol);
    r
}

pub fn render_managed_body(entries: &[ManagedEntry], eol: &str) -> (r: String)
    ensures
        r@ == managed_body(entry_texts(entries@), eol@),
{
    let rows = sorted(entries);
    let ghost all = entry_texts(rows@);
    let mut out = String::new();
    let mut i: usize = 0;
    proof {
        assert(all.take(0) =~= seq![]);
        assert(out@ =~= seq![]);
    }
    while i < rows.len()
        invariant
            all == entry_texts(rows@),
            i <= rows.len(),
            out@ == rows_text(all.take(i as int), eol@),
        decreases rows.len() - i,
    {
        proof {
            assert(all.take(i as int + 1).drop_last() =~= all.take(i as int));
        }
        out.append(row_text(&rows[i], eol).as_str());
        i += 1;
    }
    proof {
        assert(all.take(all.len() as int) =~= all);
    }
    out
}

/// A managed block around a body that is taken as it is.
pub open spec fn block_around(body: Seq<char>) -> Seq<char> {
    managed_family().begin() + "\n"@ + model::trim_end(body, CharSet::LineEnd) + "\n"@
        + managed_family().end()
}

pub fn render_block_body(body: &str) -> (r: String)
    ensures
        r@ == block_around(body@),
{
    let trimmed = text::trim_end(body, CharSet::LineEnd);
    text::cat5(mark_begin().as_str(), "\n", trimmed.as_str(), "\n", mark_end().as_str())
}

/// A whole managed block: its rows between its markers.
pub open spec fn whole_block(entries: Seq<EntryText>, eol: Seq<char>) -> Seq<char> {
    managed_family().begin() + eol + model::trim_end_text(managed_body(entries, eol), eol) + eol
        + managed_family().end()
}

pub fn render_block(entries: &[ManagedEntry], eol: &str) -> (r: String)
    ensures
        r@ == whole_block(entry_texts(entries@), eol@),
{
    let body = render_managed_body(entries, eol);
    text::cat5(
        mark_begin().as_str(),
        eol,
        text::trim_end_text(body.as_str(), eol).as_str(),
        eol,
        mark_end().as_str(),
    )
}

/// The end of the line that starts at `from`, its line feed included.
pub open spec fn line_end(s: Seq<char>, from: int) -> int {
    let n = model::first_in(s, CharSet::Only('\n'), from);
    if n < s.len() {
        n + 1
    } else {
        s.len() as int
    }
}

/// A blank line or a comment.
pub open spec fn is_filler(line: Seq<char>) -> bool {
    let t = model::trim(line);
    t.len() == 0 || t[0] == '#'
}

/// The cut around the line `[]`, where that is the first line from `from` on that is neither blank
/// nor a comment.
pub open spec fn empty_array_at(s: Seq<char>, from: int) -> Option<(Seq<char>, Seq<char>)>
    decreases s.len() - from,
{
    if from < 0 || from >= s.len() {
        None
    } else {
        let to = line_end(s, from);
        let line = s.subrange(from, to);
        if to <= from {
            None
        } else if is_filler(line) {
            empty_array_at(s, to)
        } else if model::trim(line) == "[]"@ {
            Some((s.take(from), s.skip(to)))
        } else {
            None
        }
    }
}

/// What stands before and after the placeholder `[]`, where the document is an empty array.
pub open spec fn empty_array(s: Seq<char>) -> Option<(Seq<char>, Seq<char>)> {
    empty_array_at(s, 0)
}

fn begins_with_hash(t: &str) -> (b: bool)
    ensures
        b == (t@.len() > 0 && t@[0] == '#'),
{
    let v = text::chars_of(t);
    v.len() > 0 && v[0] == '#'
}

pub fn split_empty_array(content: &str) -> (r: Option<(String, String)>)
    ensures
        match r {
            Some((a, b)) => empty_array(content@) == Some((a@, b@)),
            None => empty_array(content@) is None,
        },
{
    let v = text::chars_of(content);
    let mut from: usize = 0;
    while from < v.len()
        invariant
            v@ == content@,
            from <= v.len(),
            empty_array(content@) == empty_array_at(content@, from as int),
        decreases v.len() - from,
    {
        let n = text::first_in(&v, CharSet::Only('\n'), from);
        let to: usize = if n < v.len() {
            n + 1
        } else {
            v.len()
        };
        let trimmed = text::trim(text::string_of(&v, from, to).as_str());
        if trimmed.as_str().is_empty() || begins_with_hash(trimmed.as_str()) {
            from = to;
        } else if text::same(trimmed.as_str(), "[]") {
            let a = text::string_of(&v, 0, from);
            let b = text::string_of(&v, to, v.len());
            proof {
                assert(a@ =~= content@.take(from as int));
                assert(b@ =~= content@.skip(to as int));
            }
            return Some((a, b));
        } else {
            return None;
        }
    }
    None
}

/// Some line is neither blank nor a comment.
pub open spec fn significant(content: Seq<char>) -> bool {
    exists|i: int|
        0 <= i < model::lines(content).len() && !is_filler(#[trigger] model::lines(content)[i])
}

pub fn has_significant(content: &str) -> (b: bool)
    ensures
        b == significant(content@),
{
    let lines = text::lines(content);
    let ghost all = model::lines(content@);
    let mut i: usize = 0;
    while i < lines.len()
        invariant
            all == model::lines(content@),
            model::texts(lines@) == all,
            i <= lines.len(),
            forall|j: int| 0 <= j < i ==> is_filler(#[trigger] all[j]),
        decreases lines.len() - i,
    {
        let trimmed = text::trim(lines[i].as_str());
        proof {
            assert(all[i as int] == lines@[i as int]@);
        }
        if !trimmed.as_str().is_empty() && !begins_with_hash(trimmed.as_str()) {
            return true;
        }
        i += 1;
    }
    false
}

/// A line that may stand in a block sequence: blank, a comment, an item or indented.
pub open spec fn sequence_line(line: Seq<char>) -> bool {
    let t = model::trim_start(line, CharSet::White);
    ||| t.len() == 0
    ||| t[0] == '#'
    ||| model::starts_with(t, "- "@)
    ||| line.len() > 0 && (line[0] == ' ' || line[0] == '\t')
}

/// The document is a block sequence, which further items can be appended to.
pub open spec fn block_sequence(content: Seq<char>) -> bool {
    forall|i: int|
        0 <= i < model::lines(content).len() ==> sequence_line(#[trigger] model::lines(content)[i])
}

pub fn is_block_sequence(content: &str) -> (b: bool)
    ensures
        b == block_sequence(content@),
{
    let lines = text::lines(content);
    let ghost all = model::lines(content@);
    let mut i: usize = 0;
    while i < lines.len()
        invariant
            all == model::lines(content@),
            model::texts(lines@) == all,
            i <= lines.len(),
            forall|j: int| 0 <= j < i ==> sequence_line(#[trigger] all[j]),
        decreases lines.len() - i,
    {
        let trimmed = text::trim_start(lines[i].as_str(), CharSet::White);
        let v = text::chars_of(lines[i].as_str());
        proof {
            assert(all[i as int] == lines@[i as int]@);
        }
        if !(trimmed.as_str().is_empty() || begins_with_hash(trimmed.as_str())
            || text::starts_with(trimmed.as_str(), "- ") || (v.len() > 0 && (v[0] == ' ' || v[0]
            == '\t'))) {
            return false;
        }
        i += 1;
    }
    true
}

/// What a block body is written as: its line endings are those of the file, and it ends in none.
pub open spec fn body_text(body: Seq<char>, eol: Seq<char>) -> Seq<char> {
    model::replace_char(model::trim_end(body, CharSet::LineEnd), '\n', eol)
}

/// A whole block, from its start marker to its end marker; nothing for a missing or blank body.
pub open spec fn block_text(
    begin: Seq<char>,
    end: Seq<char>,
    body: Option<Seq<char>>,
    eol: Seq<char>,
) -> Seq<char> {
    match body {
        None => seq![],
        Some(t) => if model::blank(t) {
            seq![]
        } else {
            begin + eol + body_text(t, eol) + eol + end
        },
    }
}

/// A document that lost its block, with the placeholder `[]` put back where nothing else is left.
pub open spec fn refilled(out: Seq<char>, eol: Seq<char>) -> Seq<char> {
    if significant(out) {
        out
    } else if out.len() == 0 {
        "[]\n"@
    } else if model::ends_with(out, "\n"@) {
        out + "[]\n"@
    } else {
        out + eol + "[]\n"@
    }
}

/// A document with one more blank line at its end, if it is not empty.
pub open spec fn opened(content: Seq<char>, eol: Seq<char>) -> Seq<char> {
    if content.len() == 0 {
        content
    } else if model::ends_with(content, "\n"@) {
        content + eol
    } else {
        content + eol + eol
    }
}

/// The text before a block, without the line of a placeholder `[]` that was left there.
pub open spec fn healed(before: Seq<char>) -> Seq<char> {
    match empty_array(before) {
        Some((head, tail)) => head + tail,
        None => before,
    }
}

pub open spec fn unchanged(existing: Option<Seq<char>>) -> Result<EditText, Seq<char>> {
    Ok(EditText { written: false, content: existing })
}

pub open spec fn written(content: Seq<char>) -> Result<EditText, Seq<char>> {
    Ok(EditText { written: true, content: Some(content) })
}

/// The marker that a body must not hold, if it holds one.
pub open spec fn marker_in(
    body: Option<Seq<char>>,
    begin: Seq<char>,
    end: Seq<char>,
) -> Option<Seq<char>> {
    match body {
        None => None,
        Some(t) => if model::contains(t, begin) {
            Some(begin)
        } else if model::contains(t, end) {
            Some(end)
        } else {
            None
        },
    }
}

/// A file of which `content` is all, once the block with the given markers is rendered into it.
pub open spec fn spliced(
    path: Seq<char>,
    content: Seq<char>,
    begin: Seq<char>,
    end: Seq<char>,
    rendered: Seq<char>,
) -> Result<EditText, Seq<char>> {
    let eol = eol_of(content);
    match place(content, begin, end) {
        Place::Broken(m) => Err(path + ": "@ + m),
        Place::Absent => if rendered.len() == 0 {
            unchanged(Some(content))
        } else {
            match empty_array(content) {
                Some((before, after)) => written(
                    before + rendered + eol + model::trim_start(after, CharSet::LineEnd),
                ),
                None => if !block_sequence(content) {
                    Err(
                        path + ": 顶层不是 YAML 数组（既不是 `[]` 也不是块序列），拒绝写入受管区块"@,
                    )
                } else {
                    written(opened(content, eol) + rendered + eol)
                },
            }
        },
        Place::Block { before, block, after } => if rendered.len() == 0 {
            if model::blank(block) {
                unchanged(Some(content))
            } else {
                written(refilled(before + model::trim_start(after, CharSet::LineEnd), eol))
            }
        } else if model::trim_end(begin + block + end, CharSet::White) == model::trim_end(
            rendered,
            CharSet::White,
        ) {
            unchanged(Some(content))
        } else {
            written(healed(before) + rendered + after)
        },
    }
}

/// What writing `body` between the given markers comes to; a missing or blank body removes the
/// block.
pub open spec fn edited(
    path: Seq<char>,
    existing: Option<Seq<char>>,
    begin: Seq<char>,
    end: Seq<char>,
    body: Option<Seq<char>>,
) -> Result<EditText, Seq<char>> {
    match marker_in(body, begin, end) {
        Some(m) => Err(path + ": 写入体包含受管区块 marker（"@ + m + "），拒绝写入（会破坏区块结构）"@),
        None => match existing {
            None => {
                let rendered = block_text(begin, end, body, eol_of(seq![]));
                if rendered.len() == 0 {
                    unchanged(None)
                } else {
                    written(rendered + eol_of(seq![]))
                }
            },
            Some(content) => spliced(
                path,
                content,
                begin,
                end,
                block_text(begin, end, body, eol_of(content)),
            ),
        },
    }
}

fn render_body(begin: &str, end: &str, body: Option<&str>, eol: &str) -> (r: String)
    ensures
        r@ == block_text(begin@, end@, model::slice_of(body), eol@),
{
    match body {
        None => {
            let r = String::new();
            proof {
                assert(r@ =~= seq![]);
            }
            r
        },
        Some(t) => if text::blank(t) {
            let r = String::new();
            proof {
                assert(r@ =~= seq![]);
            }
            r
        } else {
            let trimmed = text::trim_end(t, CharSet::LineEnd);
            let inner = text::replace_char(trimmed.as_str(), '\n', eol);
            text::cat5(begin, eol, inner.as_str(), eol, end)
        },
    }
}

fn refill(out: String, eol: &str) -> (r: String)
    ensures
        r@ == refilled(out@, eol@),
{
    if has_significant(out.as_str()) {
        out
    } else if out.as_str().is_empty() {
        "[]\n".to_owned()
    } else if text::ends_with(out.as_str(), "\n") {
        text::cat2(out.as_str(), "[]\n")
    } else {
        text::cat3(out.as_str(), eol, "[]\n")
    }
}

fn open_end(content: &str, eol: &str) -> (r: String)
    ensures
        r@ == opened(content@, eol@),
{
    if content.is_empty() {
        content.to_owned()
    } else if text::ends_with(content, "\n") {
        text::cat2(content, eol)
    } else {
        text::cat3(content, eol, eol)
    }
}

fn keep(existing: Option<&str>) -> (r: BlockEdit)
    ensures
        Ok::<EditText, Seq<char>>(r@) == unchanged(model::slice_of(existing)),
{
    let content = match existing {
        Some(c) => Some(c.to_owned()),
        None => None,
    };
    BlockEdit { outcome: BlockOutcome::Unchanged, content }
}

fn write(content: String) -> (r: BlockEdit)
    ensures
        Ok::<EditText, Seq<char>>(r@) == written(content@),
{
    BlockEdit { outcome: BlockOutcome::Written, content: Some(content) }
}

/// Renders a block into a file's content.
fn splice(path: &str, content: &str, begin_marker: &str, end_marker: &str, rendered: &str) -> (r:
    Result<BlockEdit, String>)
    requires
        begin_marker@.len() > 0,
        end_marker@.len() > 0,
    ensures
        edit_of(r) == spliced(path@, content@, begin_marker@, end_marker@, rendered@),
{
    let eol = detect_eol(content);
    match locate_with_markers(content, begin_marker, end_marker) {
        Located::Broken(reason) => Err(text::cat3(path, ": ", reason.as_str())),
        Located::Absent => {
            if rendered.is_empty() {
                return Ok(keep(Some(content)));
            }
            if let Some((before, after)) = split_empty_array(content) {
                let tail = text::trim_start(after.as_str(), CharSet::LineEnd);
                return Ok(write(text::cat4(before.as_str(), rendered, eol, tail.as_str())));
            }
            if !is_block_sequence(content) {
                return Err(
                    text::cat2(
                        path,
                        ": 顶层不是 YAML 数组（既不是 `[]` 也不是块序列），拒绝写入受管区块",
                    ),
                );
            }
            Ok(write(text::cat3(open_end(content, eol).as_str(), rendered, eol)))
        },
        Located::Block { before, block, after } => {
            if rendered.is_empty() {
                if text::blank(block.as_str()) {
                    return Ok(keep(Some(content)));
                }
                let tail = text::trim_start(after.as_str(), CharSet::LineEnd);
                return Ok(write(refill(text::cat2(before.as_str(), tail.as_str()), eol)));
            }
            let now = text::cat3(begin_marker, block.as_str(), end_marker);
            if text::same(
                text::trim_end(now.as_str(), CharSet::White).as_str(),
                text::trim_end(rendered, CharSet::White).as_str(),
            ) {
                return Ok(keep(Some(content)));
            }
            let head = match split_empty_array(before.as_str()) {
                Some((head, tail)) => text::cat2(head.as_str(), tail.as_str()),
                None => before,
            };
            Ok(write(text::cat3(head.as_str(), rendered, after.as_str())))
        },
    }
}

/// Writes `body` between the given markers into a file that holds `existing`. Every block family
/// goes through here: only what stands between the markers changes.
pub fn apply_body(
    path: &str,
    existing: Option<&str>,
    begin_marker: &str,
    end_marker: &str,
    body: Option<&str>,
) -> (r: Result<BlockEdit, String>)
    requires
        begin_marker@.len() > 0,
        end_marker@.len() > 0,
    ensures
        edit_of(r) == edited(
            path@,
            model::slice_of(existing),
            begin_marker@,
            end_marker@,
            model::slice_of(body),
        ),
{
    if let Some(t) = body {
        if text::contains(t, begin_marker) {
            return Err(
                text::cat4(
                    path,
                    ": 写入体包含受管区块 marker（",
                    begin_marker,
                    "），拒绝写入（会破坏区块结构）",
                ),
            );
        }
        if text::contains(t, end_marker) {
            return Err(
                text::cat4(
                    path,
                    ": 写入体包含受管区块 marker（",
                    end_marker,
                    "），拒绝写入（会破坏区块结构）",
                ),
            );
        }
    }
    match existing {
        None => {
            let none = String::new();
            proof {
                assert(none@ =~= seq![]);
            }
            let eol = detect_eol(none.as_str());
            let rendered = render_body(begin_marker, end_marker, body, eol);
            if rendered.as_str().is_empty() {
                Ok(keep(None))
            } else {
                Ok(write(text::cat2(rendered.as_str(), eol)))
            }
        },
        Some(content) => {
            let rendered = render_body(begin_marker, end_marker, body, detect_eol(content));
            splice(path, content, begin_marker, end_marker, rendered.as_str())
        },
    }
}

/// The first entry with an invalid id.
pub open spec fn first_invalid(entries: Seq<EntryText>) -> Option<Seq<char>>
    decreases entries.len(),
{
    if entries.len() == 0 {
        None
    } else if !valid_row_id(entries[0].id) {
        Some(entries[0].id)
    } else {
        first_invalid(entries.skip(1))
    }
}

/// What writing the managed block comes to; no entries remove it. The rows get the line endings of
/// the file.
pub open spec fn block_edited(
    path: Seq<char>,
    existing: Option<Seq<char>>,
    entries: Seq<EntryText>,
) -> Result<EditText, Seq<char>> {
    match first_invalid(entries) {
        Some(id) => Err(row_id_complaint(id)),
        None => edited(
            path,
            existing,
            managed_family().begin(),
            managed_family().end(),
            if entries.len() == 0 {
                None
            } else {
                Some(managed_body(entries, "\n"@))
            },
        ),
    }
}

/// Checks the ids of all entries.
fn validate_entries(entries: &[ManagedEntry]) -> (r: Result<(), String>)
    ensures
        match r {
            Ok(_) => first_invalid(entry_texts(entries@)) is None,
            Err(m) => first_invalid(entry_texts(entries@)) is Some && m@ == row_id_complaint(
                first_invalid(entry_texts(entries@))->0,
            ),
        },
{
    let ghost all = entry_texts(entries@);
    let mut i: usize = 0;
    proof {
        assert(all.skip(0) =~= all);
    }
    while i < entries.len()
        invariant
            all == entry_texts(entries@),
            i <= entries.len(),
            first_invalid(all) == first_invalid(all.skip(i as int)),
        decreases entries.len() - i,
    {
        proof {
            assert(all.skip(i as int).skip(1) =~= all.skip(i as int + 1));
            assert(all.skip(i as int)[0] == entries@[i as int]@);
        }
        match validate_row_id(entries[i].id.as_str()) {
            Ok(_) => {},
            Err(m) => {
                return Err(m);
            },
        }
        i += 1;
    }
    Ok(())
}

/// Writes the managed block into a file that holds `existing`.
pub fn apply_block(path: &str, existing: Option<&str>, entries: &[ManagedEntry]) -> (r: Result<
    BlockEdit,
    String,
>)
    ensures
        edit_of(r) == block_edited(path@, model::slice_of(existing), entry_texts(entries@)),
{
    proof {
        lemma_markers_not_empty(managed_family());
    }
    match validate_entries(entries) {
        Ok(_) => {},
        Err(m) => {
            return Err(m);
        },
    }
    let begin = mark_begin();
    let end = mark_end();
    if entries.len() == 0 {
        apply_body(path, existing, begin.as_str(), end.as_str(), None)
    } else {
        let body = render_managed_body(entries, "\n");
        apply_body(path, existing, begin.as_str(), end.as_str(), Some(body.as_str()))
    }
}

/// The rows that the managed block of a file holds; `None` without a block.
pub open spec fn block_read(path: Seq<char>, existing: Option<Seq<char>>) -> Result<
    Option<Seq<EntryText>>,
    Seq<char>,
> {
    match existing {
        None => Ok(None),
        Some(content) => match place(content, managed_family().begin(), managed_family().end()) {
            Place::Absent => Ok(None),
            Place::Broken(m) => Err(path + ": "@ + m),
            Place::Block { before, block, after } => match parse_rows(model::lines(block)) {
                Ok(rows) => Ok(Some(rows)),
                Err(m) => Err(m),
            },
        },
    }
}

/// Reads the managed block of a file that holds `existing`.
pub fn read_block(path: &str, existing: Option<&str>) -> (r: Result<
    Option<Vec<ManagedEntry>>,
    String,
>)
    ensures
        match r {
            Ok(None) => block_read(path@, model::slice_of(existing)) == Ok::<
                Option<Seq<EntryText>>,
                Seq<char>,
            >(None),
            Ok(Some(v)) => block_read(path@, model::slice_of(existing)) == Ok::<
                Option<Seq<EntryText>>,
                Seq<char>,
            >(Some(entry_texts(v@))),
            Err(m) => block_read(path@, model::slice_of(existing)) == Err::<
                Option<Seq<EntryText>>,
                Seq<char>,
            >(m@),
        },
{
    proof {
        lemma_markers_not_empty(managed_family());
    }
    match existing {
        None => Ok(None),
        Some(content) => match locate_with_markers(
            content,
            mark_begin().as_str(),
            mark_end().as_str(),
        ) {
            Located::Absent => Ok(None),
            Located::Broken(reason) => Err(text::cat3(path, ": ", reason.as_str())),
            Located::Block { before, block, after } => match parse_block(block.as_str()) {
                Ok(rows) => Ok(Some(rows)),
                Err(m) => Err(m),
            },
        },
    }
}

/// The text between a family's markers, trimmed; `None` without a block.
pub open spec fn body_read(path: Seq<char>, existing: Option<Seq<char>>, family: BlockFamily) -> Result<
    Option<Seq<char>>,
    Seq<char>,
> {
    match existing {
        None => Ok(None),
        Some(content) => match place(content, family.begin(), family.end()) {
            Place::Absent => Ok(None),
            Place::Broken(m) => Err(path + ": "@ + m),
            Place::Block { before, block, after } => Ok(Some(model::trim(block))),
        },
    }
}

pub open spec fn body_of(r: Result<Option<String>, String>) -> Result<
    Option<Seq<char>>,
    Seq<char>,
> {
    match r {
        Ok(o) => Ok(model::text_of(o)),
        Err(m) => Err(m@),
    }
}

/// Reads the text between a family's markers.
pub fn read_body(path: &str, existing: Option<&str>, family: BlockFamily) -> (r: Result<
    Option<String>,
    String,
>)
    ensures
        body_of(r) == body_read(path@, model::slice_of(existing), family),
{
    proof {
        lemma_markers_not_empty(family);
    }
    match existing {
        None => Ok(None),
        Some(content) => match locate_with_markers(
            content,
            family.mark_begin().as_str(),
            family.mark_end().as_str(),
        ) {
            Located::Absent => Ok(None),
            Located::Broken(reason) => Err(text::cat3(path, ": ", reason.as_str())),
            Located::Block { before, block, after } => Ok(Some(text::trim(block.as_str()))),
        },
    }
}

/// Writes the text between a family's markers; a missing or blank body removes the block.
pub fn apply_family(
    path: &str,
    existing: Option<&str>,
    family: BlockFamily,
    body: Option<&str>,
) -> (r: Result<BlockEdit, String>)
    ensures
        edit_of(r) == edited(
            path@,
            model::slice_of(existing),
            family.begin(),
            family.end(),
            model::slice_of(body),
        ),
{
    proof {
        lemma_markers_not_empty(family);
    }
    apply_body(path, existing, family.mark_begin().as_str(), family.mark_end().as_str(), body)
}

pub fn read_shared_body(path: &str, existing: Option<&str>) -> (r: Result<Option<String>, String>)
    ensures
        body_of(r) == body_read(path@, model::slice_of(existing), shared_family()),
{
    read_body(path, existing, shared())
}

pub fn apply_shared_body(path: &str, existing: Option<&str>, body: Option<&str>) -> (r: Result<
    BlockEdit,
    String,
>)
    ensures
        edit_of(r) == edited(
            path@,
            model::slice_of(existing),
            shared_family().begin(),
            shared_family().end(),
            model::slice_of(body),
        ),
{
    apply_family(path, existing, shared(), body)
}

} // verus!
