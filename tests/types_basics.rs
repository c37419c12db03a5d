use eth_crawler::types::{bytes_equal, Account, Quantity, TxData, TxHash};

fn tx(from: Option<u8>, to: Option<u8>) -> TxData {
    TxData {
        hash: TxHash::from_bytes(vec![1; 32]).unwrap(),
        from: from.map(|b| Account::from_bytes(vec![b; 20]).unwrap()),
        to: to.map(|b| Account::from_bytes(vec![b; 20]).unwrap()),
        value: Quantity { limbs: [0; 4] },
        gas_price: None,
        gas: Quantity { limbs: [21000, 0, 0, 0] },
        transaction_type: None,
    }
}

#[test]
fn addresses_and_hashes_need_exact_width() {
    assert!(Account::from_bytes(vec![0; 19]).is_none());
    assert!(Account::from_bytes(vec![0; 21]).is_none());
    assert_eq!(Account::from_bytes(vec![3; 20]).unwrap().bytes, vec![3; 20]);
    assert!(TxHash::from_bytes(vec![0; 31]).is_none());
    assert_eq!(TxHash::from_bytes(vec![4; 32]).unwrap().duplicate().bytes, vec![4; 32]);
}

#[test]
fn involvement_by_sender_or_receiver() {
    let a = Account::from_bytes(vec![5; 20]).unwrap();
    assert!(tx(Some(5), Some(6)).involves(&a));
    assert!(tx(Some(6), Some(5)).involves(&a));
    assert!(tx(None, Some(5)).involves(&a));
    assert!(!tx(Some(6), None).involves(&a));
    assert!(!tx(None, None).involves(&a));
}

#[test]
fn byte_equality() {
    assert!(bytes_equal(&vec![1, 2, 3], &vec![1, 2, 3]));
    assert!(!bytes_equal(&vec![1, 2, 3], &vec![1, 2, 4]));
    assert!(!bytes_equal(&vec![1, 2], &vec![1, 2, 3]));
    assert!(bytes_equal(&Vec::new(), &Vec::new()));
    let a = Account::from_bytes(vec![9; 20]).unwrap();
    assert!(a.same(&a.duplicate()));
}
