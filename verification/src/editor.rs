//! Opening files of instructions and skills with the user's editor or the system's default program.

use crate::model;
use crate::model::CharSet;
use crate::paths::{below, join};
use crate::text;
use vstd::prelude::*;

verus! {

pub const CONTEXT_TEMPLATE: &'static str = "# CONTEXT — 项目词表\n\n> 本文件是**词表（glossary）**，不是 spec，不记录实现细节。\n\n## 核心名词\n\n- **术语**：一句话定义。\n";

pub const AGENTS_TEMPLATE: &'static str = "# AGENTS.md\n\n> 面向 agent 的全局指令。dsh 固定读取 `<dshHome>/AGENTS.md`，\n> 本文件是其共享真源。\n\n## 通用规范\n\n- 在此写下你希望所有项目都遵守的规则。\n";

/// What can be opened: nothing else can be named.
#[derive(Debug, Clone, Copy, PartialEq, Eq, Structural)]
pub enum OpenTarget {
    AgentsMd,
    ContextMd,
    SkillsRoot,
}

/// What was opened, and how.
pub struct OpenReport {
    pub path: String,
    /// `editor` or `system`.
    pub via: String,
    /// It was created for that.
    pub created: bool,
}

/// Why nothing was opened.
#[derive(Debug)]
pub enum OpenError {
    Missing(String),
    EditorFailed(String),
    SystemFailed(String),
    UnknownTarget(String),
}

impl OpenError {
    pub open spec fn text(&self) -> Seq<char> {
        match self {
            OpenError::Missing(d) => "目标文件不存在且无法创建："@ + d@,
            OpenError::EditorFailed(d) => "配置的编辑器启动失败："@ + d@
                + "（可在设置中改为留空以使用系统默认程序）"@,
            OpenError::SystemFailed(d) => "系统默认程序打开失败："@ + d@,
            OpenError::UnknownTarget(d) => "未知的打开目标："@ + d@,
        }
    }

    pub fn message(&self) -> (r: String)
        ensures
            r@ == self.text(),
    {
        match self {
            OpenError::Missing(d) => text::cat2("目标文件不存在且无法创建：", d.as_str()),
            OpenError::EditorFailed(d) => text::cat3(
                "配置的编辑器启动失败：",
                d.as_str(),
                "（可在设置中改为留空以使用系统默认程序）",
            ),
            OpenError::SystemFailed(d) => text::cat2("系统默认程序打开失败：", d.as_str()),
            OpenError::UnknownTarget(d) => text::cat2("未知的打开目标：", d.as_str()),
        }
    }
}

impl OpenTarget {
    pub open spec fn named(value: Seq<char>) -> Option<OpenTarget> {
        if value == "agents-md"@ {
            Some(OpenTarget::AgentsMd)
        } else if value == "context-md"@ {
            Some(OpenTarget::ContextMd)
        } else if value == "skills-root"@ {
            Some(OpenTarget::SkillsRoot)
        } else {
            None
        }
    }

    pub fn parse(value: &str) -> (r: Result<Self, OpenError>)
        ensures
            match OpenTarget::named(value@) {
                Some(t) => r is Ok && r->Ok_0 == t,
                None => r matches Err(OpenError::UnknownTarget(d)) && d@ == value@
                    + "（可用值：agents-md / context-md / skills-root）"@,
            },
    {
        if text::same(value, "agents-md") {
            Ok(OpenTarget::AgentsMd)
        } else if text::same(value, "context-md") {
            Ok(OpenTarget::ContextMd)
        } else if text::same(value, "skills-root") {
            Ok(OpenTarget::SkillsRoot)
        } else {
            Err(
                OpenError::UnknownTarget(
                    text::cat2(value, "（可用值：agents-md / context-md / skills-root）"),
                ),
            )
        }
    }

    /// The name of the target below the agents' directory.
    pub open spec fn leaf(self) -> Seq<char> {
        match self {
            OpenTarget::AgentsMd => "AGENTS.md"@,
            OpenTarget::ContextMd => "CONTEXT.md"@,
            OpenTarget::SkillsRoot => "skills"@,
        }
    }

    /// Where the target is: always below the agents' directory.
    pub fn resolve(self, agents_home: &str) -> (r: String)
        ensures
            r@ == below(agents_home@, self.leaf()),
    {
        match self {
            OpenTarget::AgentsMd => join(agents_home, "AGENTS.md"),
            OpenTarget::ContextMd => join(agents_home, "CONTEXT.md"),
            OpenTarget::SkillsRoot => join(agents_home, "skills"),
        }
    }

    /// What a file that does not exist yet is created with; a directory has none.
    pub fn template(self) -> (r: Option<&'static str>)
        ensures
            model::slice_of(r) == match self {
                OpenTarget::ContextMd => Some(CONTEXT_TEMPLATE@),
                OpenTarget::AgentsMd => Some(AGENTS_TEMPLATE@),
                OpenTarget::SkillsRoot => None,
            },
    {
        match self {
            OpenTarget::ContextMd => Some(CONTEXT_TEMPLATE),
            OpenTarget::AgentsMd => Some(AGENTS_TEMPLATE),
            OpenTarget::SkillsRoot => None,
        }
    }
}

// ---- Command lines ----

pub open spec fn quote_char(c: char) -> bool {
    c == '"' || c == '\''
}

/// The words of a command line from a place on. `word` is what there is of the word so far; `open`
/// says that a word has begun, and `quote` that it is inside quotes.
pub open spec fn words_from(
    s: Seq<char>,
    i: int,
    word: Seq<char>,
    open: bool,
    quote: Option<char>,
) -> Seq<Seq<char>>
    decreases s.len() - i,
{
    if i < 0 || i >= s.len() {
        if open {
            seq![word]
        } else {
            seq![]
        }
    } else if quote is Some {
        if Some(s[i]) == quote {
            words_from(s, i + 1, word, open, None)
        } else {
            words_from(s, i + 1, word.push(s[i]), open, quote)
        }
    } else if quote_char(s[i]) {
        words_from(s, i + 1, word, true, Some(s[i]))
    } else if model::white(s[i]) {
        if open {
            seq![word] + words_from(s, i + 1, seq![], false, None)
        } else {
            words_from(s, i + 1, word, open, None)
        }
    } else {
        words_from(s, i + 1, word.push(s[i]), true, None)
    }
}

/// The words of a command line: white space separates them, except inside quotes.
pub open spec fn command_words(input: Seq<char>) -> Seq<Seq<char>> {
    words_from(model::trim(input), 0, seq![], false, None)
}

pub fn split_command_line(input: &str) -> (r: Vec<String>)
    ensures
        model::texts(r@) == command_words(input@),
{
    let line = text::trim(input);
    let v = text::chars_of(line.as_str());
    let ghost s = line@;
    let mut out: Vec<String> = Vec::new();
    let mut word = String::new();
    let mut open = false;
    let mut quote: Option<char> = None;
    let mut i: usize = 0;
    proof {
        assert(word@ =~= seq![]);
        assert(model::texts(out@) + words_from(s, 0, seq![], false, None) =~= words_from(
            s,
            0,
            seq![],
            false,
            None,
        ));
    }
    while i < v.len()
        invariant
            s == model::trim(input@),
            v@ == s,
            i <= v.len(),
            !open ==> word@ == Seq::<char>::empty() && quote is None,
            model::texts(out@) + words_from(s, i as int, word@, open, quote) == command_words(input@),
        decreases v.len() - i,
    {
        let c = v[i];
        match quote {
            Some(q) => {
                if c == q {
                    quote = None;
                } else {
                    word.push(c);
                }
            },
            None => {
                if c == '"' || c == '\'' {
                    quote = Some(c);
                    open = true;
                } else if CharSet::White.test(c) {
                    if open {
                        let mut done = String::new();
                        std::mem::swap(&mut done, &mut word);
                        let ghost added = done@;
                        let ghost before = out@;
                        out.push(done);
                        open = false;
                        proof {
                            assert(word@ =~= seq![]);
                            let rest = words_from(s, i + 1, seq![], false, None);
                            assert(model::texts(out@) =~= model::texts(before).push(added));
                            assert(model::texts(before) + (seq![added] + rest) =~= model::texts(
                                out@,
                            ) + rest);
                        }
                    }
                } else {
                    word.push(c);
                    open = true;
                }
            },
        }
        i += 1;
    }
    if open {
        let ghost added = word@;
        let ghost before = out@;
        out.push(word);
        proof {
            assert(model::texts(out@) =~= model::texts(before) + seq![added]);
        }
    } else {
        proof {
            assert(model::texts(out@) + Seq::<Seq<char>>::empty() =~= model::texts(out@));
        }
    }
    out
}

// ---- Opening ----

/// How a target is opened.
pub enum OpenAction {
    /// With the user's editor.
    Editor { program: String, args: Vec<String> },
    /// With the system's default program.
    System,
    Done(OpenReport),
    Failed(OpenError),
}

/// A target that is being opened.
pub struct OpenRun {
    pub path: String,
    pub created: bool,
    /// The editor is being tried.
    pub editing: bool,
}

/// The editor's command with a path behind it.
pub open spec fn editor_words(configured: Seq<char>, path: Seq<char>) -> Seq<Seq<char>> {
    command_words(model::trim(configured)).push(path)
}

/// The editor's program and its arguments, where an editor is set.
fn launch_editor(configured: &str, path: &str) -> (r: Option<(String, Vec<String>)>)
    ensures
        ({
            let words = editor_words(configured@, path@);
            if model::blank(configured@) || words.len() < 2 {
                r is None
            } else {
                r is Some && (r->0).0@ == words[0] && model::texts((r->0).1@) == words.skip(1)
            }
        }),
{
    if text::blank(configured) {
        return None;
    }
    let mut words = split_command_line(text::trim(configured).as_str());
    proof {
        assert(model::texts(words@).len() == words@.len());
    }
    if words.len() == 0 {
        return None;
    }
    let ghost before = words@;
    words.push(path.to_owned());
    proof {
        assert(model::texts(words@) =~= model::texts(before).push(path@));
    }
    let ghost all = words@;
    let program = words.remove(0);
    proof {
        assert(model::texts(all)[0] == all[0]@);
        assert(model::texts(words@) =~= model::texts(all).skip(1));
    }
    Some((program, words))
}

impl OpenRun {
    /// Begins: with the editor where one is set, else with the system's default program.
    pub fn begin(path: String, created: bool, configured: &str) -> (r: (OpenRun, OpenAction))
        ensures
            r.0.path == path,
            r.0.created == created,
            ({
                let words = editor_words(configured@, path@);
                if model::blank(configured@) || words.len() < 2 {
                    !r.0.editing && r.1 is System
                } else {
                    &&& r.0.editing
                    &&& r.1 matches OpenAction::Editor { program, args } && program@ == words[0]
                        && model::texts(args@) == words.skip(1)
                }
            }),
    {
        match launch_editor(configured, path.as_str()) {
            Some((program, args)) => (
                OpenRun { path, created, editing: true },
                OpenAction::Editor { program, args },
            ),
            None => (OpenRun { path, created, editing: false }, OpenAction::System),
        }
    }

    /// Goes on: where the editor fails, the system's default program is tried.
    pub fn step(&mut self, outcome: Result<(), String>) -> (r: OpenAction)
        ensures
            final(self).path == old(self).path,
            final(self).created == old(self).created,
            !final(self).editing,
            match outcome {
                Ok(()) => r matches OpenAction::Done(report) && report.path@ == old(self).path@
                    && report.created == old(self).created && report.via@ == if old(self).editing {
                    "editor"@
                } else {
                    "system"@
                },
                Err(m) => if old(self).editing {
                    r is System
                } else {
                    r matches OpenAction::Failed(OpenError::SystemFailed(d)) && d == m
                },
            },
    {
        let editing = self.editing;
        self.editing = false;
        match outcome {
            Ok(()) => {
                let via = if editing {
                    "editor"
                } else {
                    "system"
                };
                OpenAction::Done(
                    OpenReport {
                        path: self.path.clone(),
                        via: via.to_owned(),
                        created: self.created,
                    },
                )
            },
            Err(m) => if editing {
                OpenAction::System
            } else {
                OpenAction::Failed(OpenError::SystemFailed(m))
            },
        }
    }
}

/// A file of a skill may be opened only where it lies below a directory of managed skills.
pub fn check_skill_file(managed: bool) -> (r: Result<(), OpenError>)
    ensures
        r is Ok == managed,
        !managed ==> (r matches Err(OpenError::UnknownTarget(d)) && d@
            == "该路径不在受管的用户级技能根内（或已不存在）"@),
{
    if managed {
        Ok(())
    } else {
        Err(OpenError::UnknownTarget("该路径不在受管的用户级技能根内（或已不存在）".to_owned()))
    }
}

// ---- Laws ----

proof fn lemma_quoted_run(s: Seq<char>, i: int, n: int, q: char, word: Seq<char>)
    requires
        0 <= i <= n < s.len(),
        s[n] == q,
        forall|k: int| i <= k < n ==> #[trigger] s[k] != q,
    ensures
        words_from(s, i, word, true, Some(q)) == words_from(
            s,
            n + 1,
            word + s.subrange(i, n),
            true,
            None,
        ),
    decreases n - i,
{
    if i < n {
        lemma_quoted_run(s, i + 1, n, q, word.push(s[i]));
        assert(word.push(s[i]) + s.subrange(i + 1, n) =~= word + s.subrange(i, n));
    } else {
        assert(word + s.subrange(i, n) =~= word);
    }
}

/// A program in quotes is one word, whatever spaces its path holds.
pub proof fn law_quoted_programs_are_one_word(program: Seq<char>, q: char)
    requires
        quote_char(q),
        forall|i: int| 0 <= i < program.len() ==> #[trigger] program[i] != q,
    ensures
        command_words(seq![q] + program + seq![q]) == seq![program],
{
    let s = seq![q] + program + seq![q];
    crate::text_lemmas::lemma_trim_nothing(s, CharSet::White);
    let n = s.len() - 1;
    assert forall|k: int| 1 <= k < n implies #[trigger] s[k] != q by {
        assert(s[k] == program[k - 1]);
    }
    lemma_quoted_run(s, 1, n, q, seq![]);
    assert(Seq::<char>::empty() + s.subrange(1, n) =~= program);
    assert(s[0] == q);
    assert(words_from(s, 0, seq![], false, None) == words_from(s, 1, seq![], true, Some(q)));
    assert(words_from(s, n + 1, program, true, None) == seq![program]);
}

/// What is opened by name lies below the agents' directory, and the two files of instructions are
/// different.
pub proof fn law_targets_lie_below(agents_home: Seq<char>, target: OpenTarget)
    ensures
        below(agents_home, target.leaf()).len() > agents_home.len(),
        below(agents_home, target.leaf()).take(agents_home.len() as int) == agents_home,
        below(agents_home, OpenTarget::AgentsMd.leaf()) != below(
            agents_home,
            OpenTarget::ContextMd.leaf(),
        ),
{
    reveal_strlit("AGENTS.md");
    reveal_strlit("CONTEXT.md");
    reveal_strlit("skills");
    let p = below(agents_home, target.leaf());
    assert(p.take(agents_home.len() as int) =~= agents_home);
    let a = below(agents_home, OpenTarget::AgentsMd.leaf());
    let b = below(agents_home, OpenTarget::ContextMd.leaf());
    assert(a.len() + 1 == b.len());
}

} // verus!
