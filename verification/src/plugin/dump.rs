//! The composed configuration of the service: its sections and rows.

use crate::model;
use crate::plugin::state::RowState;
use crate::text;
use vstd::prelude::*;

verus! {

/// What stands in a row's `disabled`.
#[derive(Debug)]
pub enum DisabledValue {
    Bool(bool),
    /// An expression that the service evaluates.
    Expression(String),
}

/// A row of the composed configuration.
#[derive(Debug)]
pub struct DumpRow {
    pub id: String,
    pub name: Option<String>,
    pub disabled: Option<DisabledValue>,
}

/// The rows of one layer, and the layers that patched them.
#[derive(Debug)]
pub struct DumpSection {
    pub owner: String,
    pub patched_by: Vec<String>,
    pub rows: Vec<DumpRow>,
}

impl DumpRow {
    /// Whether the row is on; `None` where an expression decides.
    pub open spec fn enabled(&self) -> Option<bool> {
        match self.disabled {
            None => Some(true),
            Some(DisabledValue::Bool(b)) => Some(!b),
            Some(DisabledValue::Expression(_)) => None,
        }
    }

    pub open spec fn state(&self) -> RowState {
        match self.enabled() {
            Some(true) => RowState::Enabled,
            Some(false) => RowState::Disabled,
            None => RowState::Expression,
        }
    }

    pub fn effective_enabled(&self) -> (r: Option<bool>)
        ensures
            r == self.enabled(),
    {
        match &self.disabled {
            None => Some(true),
            Some(DisabledValue::Bool(b)) => Some(!*b),
            Some(DisabledValue::Expression(_)) => None,
        }
    }

    pub fn is_expression_controlled(&self) -> (b: bool)
        ensures
            b == (self.enabled() is None),
    {
        self.effective_enabled().is_none()
    }

    pub fn row_state(&self) -> (r: RowState)
        ensures
            r == self.state(),
    {
        match self.effective_enabled() {
            Some(b) => if b {
                RowState::Enabled
            } else {
                RowState::Disabled
            },
            None => RowState::Expression,
        }
    }
}

/// The ids of rows.
pub open spec fn row_ids(rows: Seq<DumpRow>) -> Seq<Seq<char>> {
    rows.map_values(|r: DumpRow| r.id@)
}

/// The ids of the rows that a package owns, in order.
pub open spec fn owned_rows(sections: Seq<DumpSection>, package: Seq<char>) -> Seq<Seq<char>>
    decreases sections.len(),
{
    if sections.len() == 0 {
        seq![]
    } else {
        let rest = owned_rows(sections.drop_last(), package);
        if sections.last().owner@ == package {
            rest + row_ids(sections.last().rows@)
        } else {
            rest
        }
    }
}

/// The last of some rows with the given id.
pub open spec fn row_among(rows: Seq<DumpRow>, id: Seq<char>) -> Option<DumpRow>
    decreases rows.len(),
{
    if rows.len() == 0 {
        None
    } else if rows.last().id@ == id {
        Some(rows.last())
    } else {
        row_among(rows.drop_last(), id)
    }
}

/// The row with the given id; of several the last.
pub open spec fn row_with(sections: Seq<DumpSection>, id: Seq<char>) -> Option<DumpRow>
    decreases sections.len(),
{
    if sections.len() == 0 {
        None
    } else {
        match row_among(sections.last().rows@, id) {
            Some(r) => Some(r),
            None => row_with(sections.drop_last(), id),
        }
    }
}

/// The ids of the rows that a package owns.
pub fn rows_of_owner(sections: &Vec<DumpSection>, package: &str) -> (r: Vec<String>)
    ensures
        model::texts(r@) == owned_rows(sections@, package@),
{
    let mut out: Vec<String> = Vec::new();
    let mut i: usize = 0;
    proof {
        assert(sections@.take(0) =~= seq![]);
        assert(model::texts(out@) =~= seq![]);
    }
    while i < sections.len()
        invariant
            i <= sections.len(),
            model::texts(out@) == owned_rows(sections@.take(i as int), package@),
        decreases sections.len() - i,
    {
        let section = &sections[i];
        proof {
            assert(sections@.take(i as int + 1).drop_last() =~= sections@.take(i as int));
            assert(sections@.take(i as int + 1).last() == sections@[i as int]);
        }
        if text::same(section.owner.as_str(), package) {
            let ghost start = model::texts(out@);
            let ghost ids = row_ids(section.rows@);
            let mut j: usize = 0;
            proof {
                assert(start + ids.take(0) =~= start);
            }
            while j < section.rows.len()
                invariant
                    ids == row_ids(section.rows@),
                    j <= section.rows.len(),
                    model::texts(out@) == start + ids.take(j as int),
                decreases section.rows.len() - j,
            {
                let ghost before = model::texts(out@);
                out.push(section.rows[j].id.clone());
                j += 1;
                proof {
                    assert(model::texts(out@) =~= before.push(ids[j - 1]));
                    assert(start + ids.take(j as int) =~= before.push(ids[j - 1]));
                }
            }
            proof {
                assert(ids.take(ids.len() as int) =~= ids);
            }
        }
        i += 1;
    }
    proof {
        assert(sections@.take(sections.len() as int) =~= sections@);
    }
    out
}

/// The row with the given id.
pub fn find_row<'a>(sections: &'a Vec<DumpSection>, id: &str) -> (r: Option<&'a DumpRow>)
    ensures
        match r {
            Some(row) => row_with(sections@, id@) == Some(*row),
            None => row_with(sections@, id@) is None,
        },
{
    let mut i: usize = sections.len();
    proof {
        assert(sections@.take(i as int) =~= sections@);
    }
    while i > 0
        invariant
            i <= sections.len(),
            row_with(sections@, id@) == row_with(sections@.take(i as int), id@),
        decreases i,
    {
        i -= 1;
        let rows = &sections[i].rows;
        proof {
            assert(sections@.take(i as int + 1).drop_last() =~= sections@.take(i as int));
        }
        let mut j: usize = rows.len();
        proof {
            assert(rows@.take(j as int) =~= rows@);
        }
        while j > 0
            invariant
                j <= rows.len(),
                i < sections.len(),
                *rows == sections@[i as int].rows,
                row_among(rows@, id@) == row_among(rows@.take(j as int), id@),
                row_with(sections@, id@) == match row_among(rows@, id@) {
                    Some(r) => Some(r),
                    None => row_with(sections@.take(i as int), id@),
                },
            decreases j,
        {
            j -= 1;
            proof {
                assert(rows@.take(j as int + 1).drop_last() =~= rows@.take(j as int));
            }
            if text::same(rows[j].id.as_str(), id) {
                return Some(&rows[j]);
            }
        }
    }
    None
}

} // verus!
