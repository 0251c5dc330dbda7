//! SQL statements as plain values: the text and the positional parameters
//! that the database receives.
use vstd::prelude::*;

verus! {

/// A positional parameter of a statement.
pub enum SqlValue {
    Integer(i64),
    Text(String),
}

/// A parameter as a mathematical value.
pub enum SqlValueView {
    Integer(int),
    Text(Seq<char>),
}

impl View for SqlValue {
    type V = SqlValueView;

    open spec fn view(&self) -> SqlValueView {
        match self {
            SqlValue::Integer(i) => SqlValueView::Integer(*i as int),
            SqlValue::Text(s) => SqlValueView::Text(s@),
        }
    }
}

/// A statement: its SQL text, with `?` for each parameter, and the parameters in order.
pub struct SqlStatement {
    pub sql: String,
    pub params: Vec<SqlValue>,
}

/// The parameters of a statement as mathematical values.
pub open spec fn params_view(params: Seq<SqlValue>) -> Seq<SqlValueView> {
    params.map_values(|p: SqlValue| p@)
}

/// Builds a statement from its text and parameters.
pub fn statement(sql: &str, params: Vec<SqlValue>) -> (st: SqlStatement)
    ensures
        st.sql@ == sql@,
        st.params@ == params@,
{
    SqlStatement { sql: String::from_str(sql), params }
}

} // verus!
