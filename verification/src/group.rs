//! Groups of qubes: the statements that create a group and that put qubes in one.
use vstd::prelude::*;
use crate::sql::{SqlStatement, SqlValue, SqlValueView, params_view, statement};

verus! {

/// The statement that creates a group.
pub open spec fn create_group_sql() -> Seq<char> {
    "INSERT INTO groups(id, name) VALUES (NULL, ?)"@
}

/// The statement that puts a qube in a group, moving it out of the group it was in.
pub open spec fn assign_qube_sql() -> Seq<char> {
    "INSERT INTO vms(name, group_id) VALUES(?, (SELECT id FROM groups WHERE name = ?)) ON CONFLICT(name) DO UPDATE SET group_id = excluded.group_id"@
}

/// The warning given when no qube is named.
pub open spec fn no_qube_warning() -> Seq<char> {
    "Warning: no qube specified, so nothing added"@
}

/// The statement that creates the group `name`.
pub fn create_group_statement(name: &str) -> (st: SqlStatement)
    ensures
        st.sql@ == create_group_sql(),
        params_view(st.params@) == seq![SqlValueView::Text(name@)],
{
    let mut ps: Vec<SqlValue> = Vec::new();
    ps.push(SqlValue::Text(String::from_str(name)));
    assert(params_view(ps@) == seq![SqlValueView::Text(name@)]);
    statement("INSERT INTO groups(id, name) VALUES (NULL, ?)", ps)
}

/// The statements that put qubes in a group, run in order, and the warning
/// to give when there are none.
pub struct AddQubesPlan {
    pub statements: Vec<SqlStatement>,
    pub warning: Option<String>,
}

/// The parameters that put `qube` in the group `group`.
pub open spec fn assign_params(qube: Seq<char>, group: Seq<char>) -> Seq<SqlValueView> {
    seq![SqlValueView::Text(qube), SqlValueView::Text(group)]
}

/// Plans putting each of `qube_names`, in order, in the group `group_name`:
/// one statement per qube; a warning when there is no qube.
pub fn add_qubes_plan(group_name: &str, qube_names: &Vec<String>) -> (plan: AddQubesPlan)
    ensures
        plan.statements@.len() == qube_names@.len(),
        forall|i: int|
            0 <= i < qube_names@.len() ==> {
                &&& (#[trigger] plan.statements@[i]).sql@ == assign_qube_sql()
                &&& params_view(plan.statements@[i].params@) == assign_params(
                    qube_names@[i]@,
                    group_name@,
                )
            },
        match plan.warning {
            Some(w) => qube_names@.len() == 0 && w@ == no_qube_warning(),
            None => qube_names@.len() > 0,
        },
{
    let mut statements: Vec<SqlStatement> = Vec::new();
    let n = qube_names.len();
    for i in 0..n
        invariant
            n == qube_names@.len(),
            statements@.len() == i,
            forall|k: int|
                0 <= k < i ==> {
                    &&& (#[trigger] statements@[k]).sql@ == assign_qube_sql()
                    &&& params_view(statements@[k].params@) == assign_params(
                        qube_names@[k]@,
                        group_name@,
                    )
                },
    {
        let mut ps: Vec<SqlValue> = Vec::new();
        ps.push(SqlValue::Text(qube_names[i].clone()));
        ps.push(SqlValue::Text(String::from_str(group_name)));
        assert(params_view(ps@) == assign_params(qube_names@[i as int]@, group_name@));
        let st = statement(
            "INSERT INTO vms(name, group_id) VALUES(?, (SELECT id FROM groups WHERE name = ?)) ON CONFLICT(name) DO UPDATE SET group_id = excluded.group_id",
            ps,
        );
        statements.push(st);
    }
    let warning = if n == 0 {
        Some(String::from_str("Warning: no qube specified, so nothing added"))
    } else {
        None
    };
    AddQubesPlan { statements, warning }
}

} // verus!
