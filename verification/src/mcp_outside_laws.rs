//! What the check of a write to the patch file can tell, and which rows of the service are tool
//! servers.

use crate::mcp::{canonical_outside, mcp_family, unix_eol, McpRow};
use crate::model;
use crate::model::CharSet;
use crate::plugin::dump::DisabledValue;
use crate::plugin::dump_text::{
    mcp_rows, read_sections, section_texts, servers_among, servers_in, shows_server, RawRow,
    RawSection, RowText, SectionText, ServerText,
};
use crate::plugin::managed::split_outside;
use crate::plugin::state::PluginError;
use crate::yaml_text::config_scalar;
use vstd::prelude::*;

verus! {

proof fn lemma_unix_plain(s: Seq<char>)
    requires
        forall|i: int| 0 <= i < s.len() ==> #[trigger] s[i] != '\r',
    ensures
        unix_eol(s) == s,
    decreases s.len(),
{
    if s.len() > 0 {
        let rest = s.skip(1);
        assert forall|i: int| 0 <= i < rest.len() implies #[trigger] rest[i] != '\r' by {
            assert(rest[i] == s[i + 1]);
        }
        assert(s[0] != '\r');
        lemma_unix_plain(rest);
        assert(seq![s[0]] + rest =~= s);
    } else {
        assert(unix_eol(s) =~= s);
    }
}

/// What stands outside the block cannot change unnoticed: two files that are taken for the same agree
/// in everything before the block and behind it, but for line feeds next to it.
pub proof fn law_changes_outside_are_seen(
    x: &str,
    y: &str,
    a: String,
    b: String,
    p: (String, String),
    q: (String, String),
)
    requires
        call_ensures(canonical_outside, (x,), Ok::<String, PluginError>(a)),
        call_ensures(canonical_outside, (y,), Ok::<String, PluginError>(b)),
        call_ensures(
            split_outside,
            (x, mcp_family()),
            Ok::<Option<(String, String)>, String>(Some(p)),
        ),
        call_ensures(
            split_outside,
            (y, mcp_family()),
            Ok::<Option<(String, String)>, String>(Some(q)),
        ),
        forall|i: int| 0 <= i < p.0@.len() ==> #[trigger] p.0@[i] != '\r' && p.0@[i] != '\0',
        forall|i: int| 0 <= i < p.1@.len() ==> #[trigger] p.1@[i] != '\r' && p.1@[i] != '\0',
        forall|i: int| 0 <= i < q.0@.len() ==> #[trigger] q.0@[i] != '\r' && q.0@[i] != '\0',
        forall|i: int| 0 <= i < q.1@.len() ==> #[trigger] q.1@[i] != '\r' && q.1@[i] != '\0',
        a@ == b@,
    ensures
        model::trim_end(p.0@, CharSet::Only('\n')) == model::trim_end(q.0@, CharSet::Only('\n')),
        model::trim_start(p.1@, CharSet::Only('\n')) == model::trim_start(q.1@, CharSet::Only('\n')),
{
    lemma_unix_plain(p.0@);
    lemma_unix_plain(p.1@);
    lemma_unix_plain(q.0@);
    lemma_unix_plain(q.1@);
    let k = CharSet::Only('\n');
    let u = model::trim_end(p.0@, k);
    let v = model::trim_end(q.0@, k);
    let s = model::trim_start(p.1@, k);
    let t = model::trim_start(q.1@, k);
    model::lemma_back_over(p.0@, k, p.0@.len() as int);
    model::lemma_back_over(q.0@, k, q.0@.len() as int);
    assert forall|i: int| 0 <= i < u.len() implies #[trigger] u[i] != '\0' by {
        assert(u[i] == p.0@[i]);
    }
    assert forall|i: int| 0 <= i < v.len() implies #[trigger] v[i] != '\0' by {
        assert(v[i] == q.0@[i]);
    }
    lemma_cut(u, s, v, t, '\0');
}

proof fn lemma_cut(u: Seq<char>, s: Seq<char>, v: Seq<char>, t: Seq<char>, c: char)
    requires
        u + seq![c] + s == v + seq![c] + t,
        forall|i: int| 0 <= i < u.len() ==> #[trigger] u[i] != c,
        forall|i: int| 0 <= i < v.len() ==> #[trigger] v[i] != c,
    ensures
        u == v,
        s == t,
{
    let x = u + seq![c] + s;
    let y = v + seq![c] + t;
    assert(x[u.len() as int] == c);
    assert(y[v.len() as int] == c);
    if u.len() < v.len() {
        assert(y[u.len() as int] == v[u.len() as int]);
    } else if v.len() < u.len() {
        assert(x[v.len() as int] == u[v.len() as int]);
    }
    assert(u =~= x.take(u.len() as int));
    assert(v =~= y.take(v.len() as int));
    assert(s =~= x.skip(u.len() as int + 1));
    assert(t =~= y.skip(v.len() as int + 1));
}

/// The same holds of files without the block: they agree but for line feeds at their end.
pub proof fn law_changes_of_plain_files_are_seen(x: &str, y: &str, a: String, b: String)
    requires
        call_ensures(canonical_outside, (x,), Ok::<String, PluginError>(a)),
        call_ensures(canonical_outside, (y,), Ok::<String, PluginError>(b)),
        call_ensures(
            split_outside,
            (x, mcp_family()),
            Ok::<Option<(String, String)>, String>(None),
        ),
        call_ensures(
            split_outside,
            (y, mcp_family()),
            Ok::<Option<(String, String)>, String>(None),
        ),
        forall|i: int| 0 <= i < x@.len() ==> #[trigger] x@[i] != '\r',
        forall|i: int| 0 <= i < y@.len() ==> #[trigger] y@[i] != '\r',
        a@ == b@,
    ensures
        model::trim_end(x@, CharSet::Only('\n')) == model::trim_end(y@, CharSet::Only('\n')),
{
    lemma_unix_plain(x@);
    lemma_unix_plain(y@);
    let k = CharSet::Only('\n');
    let u = model::trim_end(x@, k);
    let v = model::trim_end(y@, k);
    assert(a@.drop_last() =~= u);
    assert(b@.drop_last() =~= v);
}

// ---- Tool servers of the service ----

/// The row is that of a tool server.
pub open spec fn server_row(row: RawRow) -> bool {
    row.name is Some && (row.name->0)@ == "@deepseek-ai/dsh-mcp-client"@
}

proof fn lemma_servers_among(owner: Seq<char>, rows: Seq<RowText>, x: ServerText)
    ensures
        servers_among(owner, rows).contains(x) <==> x.owner == owner && exists|k: int|
            0 <= k < rows.len() && #[trigger] rows[k] == x.row && rows[k].name == Some(
                "@deepseek-ai/dsh-mcp-client"@,
            ),
    decreases rows.len(),
{
    let out = servers_among(owner, rows);
    if rows.len() > 0 {
        let init = rows.drop_last();
        let rest = servers_among(owner, init);
        let n = rows.len() - 1;
        lemma_servers_among(owner, init, x);
        if out.contains(x) {
            let i = choose|i: int| 0 <= i < out.len() && out[i] == x;
            if i < rest.len() {
                assert(rest[i] == x);
                let k = choose|k: int|
                    0 <= k < init.len() && #[trigger] init[k] == x.row && init[k].name == Some(
                        "@deepseek-ai/dsh-mcp-client"@,
                    );
                assert(rows[k] == x.row);
            } else {
                assert(rows[n] == x.row);
            }
        }
        if x.owner == owner && exists|k: int|
            0 <= k < rows.len() && #[trigger] rows[k] == x.row && rows[k].name == Some(
                "@deepseek-ai/dsh-mcp-client"@,
            ) {
            let k = choose|k: int|
                0 <= k < rows.len() && #[trigger] rows[k] == x.row && rows[k].name == Some(
                    "@deepseek-ai/dsh-mcp-client"@,
                );
            if k < n {
                assert(init[k] == x.row);
                let i = choose|i: int| 0 <= i < rest.len() && rest[i] == x;
                assert(out[i] == x);
            } else {
                assert(out[rest.len() as int] == x);
            }
        }
    }
}

proof fn lemma_servers_in(sections: Seq<SectionText>, x: ServerText)
    ensures
        servers_in(sections).contains(x) <==> exists|s: int, k: int|
            #![trigger sections[s].rows[k]]
            0 <= s < sections.len() && sections[s].owner == x.owner && 0 <= k < sections[s].rows.len()
                && sections[s].rows[k] == x.row && x.row.name == Some("@deepseek-ai/dsh-mcp-client"@),
    decreases sections.len(),
{
    let out = servers_in(sections);
    if sections.len() > 0 {
        let init = sections.drop_last();
        let rest = servers_in(init);
        let last = sections.last();
        let own = servers_among(last.owner, last.rows);
        let n = sections.len() - 1;
        lemma_servers_in(init, x);
        lemma_servers_among(last.owner, last.rows, x);
        if out.contains(x) {
            let i = choose|i: int| 0 <= i < out.len() && out[i] == x;
            if i < rest.len() {
                assert(rest[i] == x);
                let (s, k) = choose|s: int, k: int|
                    #![trigger init[s].rows[k]]
                    0 <= s < init.len() && init[s].owner == x.owner && 0 <= k < init[s].rows.len()
                        && init[s].rows[k] == x.row && x.row.name == Some(
                        "@deepseek-ai/dsh-mcp-client"@,
                    );
                assert(sections[s].rows[k] == x.row);
            } else {
                assert(own[i - rest.len()] == x);
                let k = choose|k: int|
                    0 <= k < last.rows.len() && #[trigger] last.rows[k] == x.row && last.rows[k].name
                        == Some("@deepseek-ai/dsh-mcp-client"@);
                assert(sections[n].rows[k] == x.row);
            }
        }
        if exists|s: int, k: int|
            #![trigger sections[s].rows[k]]
            0 <= s < sections.len() && sections[s].owner == x.owner && 0 <= k < sections[s].rows.len()
                && sections[s].rows[k] == x.row && x.row.name == Some("@deepseek-ai/dsh-mcp-client"@) {
            let (s, k) = choose|s: int, k: int|
                #![trigger sections[s].rows[k]]
                0 <= s < sections.len() && sections[s].owner == x.owner && 0 <= k
                    < sections[s].rows.len() && sections[s].rows[k] == x.row && x.row.name == Some(
                    "@deepseek-ai/dsh-mcp-client"@,
                );
            if s < n {
                assert(init[s].rows[k] == x.row);
                let i = choose|i: int| 0 <= i < rest.len() && rest[i] == x;
                assert(out[i] == x);
            } else {
                assert(last.rows[k] == x.row);
                let i = choose|i: int| 0 <= i < own.len() && own[i] == x;
                assert(out[rest.len() + i] == x);
            }
        }
    }
}

/// The tool servers are exactly the rows of the service that its tool server package provides, each
/// with its own id, layer and state: a row without a state is on, and an expression decides of itself.
/// The name is the one in the row's configuration.
pub proof fn law_which_rows_are_tool_servers(
    output: &str,
    r: Vec<McpRow>,
    sections: Vec<RawSection>,
    s: int,
    k: int,
    config: &str,
    key: &str,
    name: Option<String>,
)
    requires
        call_ensures(mcp_rows, (output,), r),
        call_ensures(read_sections, (output,), sections),
        0 <= s < sections@.len(),
        0 <= k < sections@[s].rows@.len(),
        config@ == model::join(model::texts(sections@[s].rows@[k].config@), "\n"@),
        key@ == "serverName"@,
        call_ensures(config_scalar, (config, key), name),
    ensures
        server_row(sections@[s].rows@[k]) ==> exists|i: int|
            0 <= i < r@.len() && (#[trigger] r@[i]).row_id@ == sections@[s].rows@[k].id@
                && r@[i].section_owner@ == sections@[s].owner@ && model::text_of(r@[i].server_name)
                == model::text_of(name) && (sections@[s].rows@[k].disabled is None ==> r@[i].disabled
                == Some(false)) && (sections@[s].rows@[k].disabled matches Some(
                DisabledValue::Bool(off),
            ) ==> r@[i].disabled == Some(off)) && (sections@[s].rows@[k].disabled matches Some(
                DisabledValue::Expression(_),
            ) ==> r@[i].disabled is None),
{
    let read = section_texts(sections@);
    assert(read.len() == sections@.len() && read[s] == sections@[s]@);
    let rows = read[s].rows;
    assert(rows.len() == sections@[s].rows@.len() && rows[k] == sections@[s].rows@[k]@);
    let x = ServerText { owner: sections@[s].owner@, row: rows[k] };
    lemma_servers_in(read, x);
    if server_row(sections@[s].rows@[k]) {
        assert(read[s].rows[k] == x.row);
        let all = servers_in(read);
        let i = choose|i: int| 0 <= i < all.len() && all[i] == x;
        assert(shows_server(r@[i], all[i]));
        assert(r@[i].row_id@ == sections@[s].rows@[k].id@);
    }
}

/// Nothing else is a tool server.
pub proof fn law_other_rows_are_no_tool_servers(
    output: &str,
    r: Vec<McpRow>,
    sections: Vec<RawSection>,
    i: int,
)
    requires
        call_ensures(mcp_rows, (output,), r),
        call_ensures(read_sections, (output,), sections),
        0 <= i < r@.len(),
    ensures
        exists|s: int, k: int|
            #![trigger sections@[s].rows@[k]]
            0 <= s < sections@.len() && 0 <= k < sections@[s].rows@.len() && server_row(
                sections@[s].rows@[k],
            ) && sections@[s].rows@[k].id@ == r@[i].row_id@ && sections@[s].owner@
                == r@[i].section_owner@,
{
    let read = section_texts(sections@);
    let all = servers_in(read);
    assert(shows_server(r@[i], all[i]));
    assert(all.contains(all[i]));
    lemma_servers_in(read, all[i]);
    let (s, k) = choose|s: int, k: int|
        #![trigger read[s].rows[k]]
        0 <= s < read.len() && read[s].owner == all[i].owner && 0 <= k < read[s].rows.len()
            && read[s].rows[k] == all[i].row && all[i].row.name == Some(
            "@deepseek-ai/dsh-mcp-client"@,
        );
    assert(read[s] == sections@[s]@);
    assert(read[s].rows[k] == sections@[s].rows@[k]@);
    assert(server_row(sections@[s].rows@[k]));
}

} // verus!
