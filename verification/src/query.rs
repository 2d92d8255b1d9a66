//! Text of the SQL queries the services issue.
use vstd::prelude::*;
use vstd::string::StringExecFns;

verus! {

/// The text of an optional clause: `keyword` followed by the clause, or nothing.
pub open spec fn clause(keyword: Seq<char>, c: Option<Seq<char>>) -> Seq<char> {
    match c {
        Some(c) => keyword + c,
        None => seq![],
    }
}

/// Spec view of an optional string argument.
pub open spec fn opt_view(o: Option<&str>) -> Option<Seq<char>> {
    match o {
        Some(s) => Some(s@),
        None => None,
    }
}

/// Builds `SELECT <action> FROM <table> ` followed, for each argument given, by
/// `WHERE <condition>`, `ORDER BY <sort_by>` and `GROUP BY <group_by>`, in that
/// order and with nothing between them.
pub fn create_query(
    action: &str,
    table: &str,
    condition: Option<&str>,
    sort_by: Option<&str>,
    group_by: Option<&str>,
) -> (query: String)
    ensures
        query@ == "SELECT "@ + action@ + " FROM "@ + table@ + " "@ + clause(
            "WHERE "@,
            opt_view(condition),
        ) + clause("ORDER BY "@, opt_view(sort_by)) + clause("GROUP BY "@, opt_view(group_by)),
{
    let mut query = String::new();
    query.append("SELECT ");
    query.append(action);
    query.append(" FROM ");
    query.append(table);
    query.append(" ");
    let ghost base = query@;
    if let Some(condition) = condition {
        query.append("WHERE ");
        query.append(condition);
    }
    let ghost with_where = query@;
    if let Some(sort_by) = sort_by {
        query.append("ORDER BY ");
        query.append(sort_by);
    }
    let ghost with_sort = query@;
    if let Some(group_by) = group_by {
        query.append("GROUP BY ");
        query.append(group_by);
    }
    proof {
        assert(with_where =~= base + clause("WHERE "@, opt_view(condition)));
        assert(with_sort =~= with_where + clause("ORDER BY "@, opt_view(sort_by)));
        assert(query@ =~= with_sort + clause("GROUP BY "@, opt_view(group_by)));
    }
    query
}

}
