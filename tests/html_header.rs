use eth_crawler::html::render_header_row;

#[test]
fn header_row_lists_columns() {
    let expected = "<th>transaction hash</th><th>block number</th><th>timestamp</th><th>from</th><th>to</th><th>value</th><th>gas price</th><th>gas used</th><th>transaction type</th><th>status</th>";
    assert_eq!(render_header_row(), expected);
}
