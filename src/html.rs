use vstd::prelude::*;
use vstd::string::StringExecFns;

verus! {

/// Column titles of the transactions table.
pub open spec fn header_names() -> Seq<Seq<char>> {
    seq![
        "transaction hash"@,
        "block number"@,
        "timestamp"@,
        "from"@,
        "to"@,
        "value"@,
        "gas price"@,
        "gas used"@,
        "transaction type"@,
        "status"@,
    ]
}

/// One header cell of the table.
pub open spec fn header_cell(name: Seq<char>) -> Seq<char> {
    "<th>"@ + name + "</th>"@
}

/// Header cells for each name, in order.
pub open spec fn header_cells(names: Seq<Seq<char>>) -> Seq<char>
    decreases names.len(),
{
    if names.len() == 0 {
        Seq::empty()
    } else {
        header_cells(names.drop_last()) + header_cell(names.last())
    }
}

/// The header cells of the transactions table, one per column.
pub fn render_header_row() -> (r: String)
    ensures
        r@ == header_cells(header_names()),
{
    let names = vec![
        "transaction hash",
        "block number",
        "timestamp",
        "from",
        "to",
        "value",
        "gas price",
        "gas used",
        "transaction type",
        "status",
    ];
    let ghost views = names@.map_values(|s: &str| s@);
    assert(views =~= header_names());
    let mut row = String::from_str("");
    proof {
        reveal_strlit("");
    }
    let mut i: usize = 0;
    while i < names.len()
        invariant
            i <= names@.len(),
            views == names@.map_values(|s: &str| s@),
            row@ == header_cells(views.subrange(0, i as int)),
        decreases names@.len() - i,
    {
        proof {
            reveal_strlit("<th>");
            reveal_strlit("</th>");
            assert(views.subrange(0, i + 1).drop_last() =~= views.subrange(0, i as int));
        }
        row.append("<th>");
        row.append(names[i]);
        row.append("</th>");
        proof {
            assert(row@ =~= header_cells(views.subrange(0, i + 1)));
        }
        i = i + 1;
    }
    assert(views.subrange(0, i as int) =~= views);
    row
}

} // verus!
