use payments_engine::engine::amount::Amount;
use payments_engine::engine::errors::PaymentError;
use payments_engine::engine::payments::{Transaction, TransactionType};

fn refusal(record: &str) -> String {
    match Transaction::from_str(record) {
        Err(PaymentError::PaymentProcessingError(message)) => message,
        other => panic!("expected a processing error, got {:?}", other),
    }
}

#[test]
fn record_of_each_kind_is_read() {
    let t = Transaction::from_str("deposit,1,2,3.5").unwrap();
    assert_eq!(t.transaction_type(), TransactionType::Deposit);
    assert_eq!(t.client_id(), 1);
    assert_eq!(t.transaction_id(), 2);
    assert_eq!(t.amount(), Amount::from_units(350_000_000));
    assert_eq!(t.under_dispute(), false);

    let t = Transaction::from_str("withdrawal,65535,4294967295,0.0001").unwrap();
    assert_eq!(t.transaction_type(), TransactionType::Withdrawal);
    assert_eq!(t.client_id(), 65535);
    assert_eq!(t.transaction_id(), 4294967295);
    assert_eq!(t.amount(), Amount::from_units(10_000));

    let t = Transaction::from_str("dispute,7,8,").unwrap();
    assert_eq!(t.transaction_type(), TransactionType::Dispute);
    assert_eq!(t.client_id(), 7);
    assert_eq!(t.transaction_id(), 8);

    let t = Transaction::from_str("resolve,7,8,").unwrap();
    assert_eq!(t.transaction_type(), TransactionType::Resolve);

    let t = Transaction::from_str("chargeback,7,8,").unwrap();
    assert_eq!(t.transaction_type(), TransactionType::Chargeback);
}

#[test]
fn record_amount_is_not_read_where_no_money_moves() {
    for record in ["dispute,1,99,", "dispute,1,99,0", "dispute,1,99,12.5", "dispute,1,99,junk"] {
        let t = Transaction::from_str(record).unwrap();
        assert_eq!(t.transaction_type(), TransactionType::Dispute);
        assert_eq!(t.amount(), Amount::zero());
    }
    for record in ["resolve,1,99,junk", "chargeback,1,99,junk"] {
        assert_eq!(Transaction::from_str(record).unwrap().amount(), Amount::zero());
    }
}

#[test]
fn record_fields_after_the_fourth_are_not_read() {
    let t = Transaction::from_str("deposit,1,2,3.5,anything,at,all").unwrap();
    assert_eq!(t.amount(), Amount::from_units(350_000_000));
}

#[test]
fn record_with_too_few_fields_is_refused() {
    assert_eq!(refusal(""), "Invalid input data");
    assert_eq!(refusal("deposit"), "Invalid input data");
    assert_eq!(refusal("deposit,1,2"), "Invalid input data");
    assert_eq!(refusal("dispute,1,2"), "Invalid input data");
    assert_eq!(refusal("nonsense,x,y"), "Invalid input data");
}

#[test]
fn record_with_an_unknown_kind_is_refused() {
    assert_eq!(refusal("refund,1,2,3.0"), "Invalid transaction type: refund");
    assert_eq!(refusal("Deposit,1,2,3.0"), "Invalid transaction type: Deposit");
    assert_eq!(refusal("DEPOSIT,1,2,3.0"), "Invalid transaction type: DEPOSIT");
    assert_eq!(refusal(" deposit,1,2,3.0"), "Invalid transaction type:  deposit");
    assert_eq!(refusal("deposit ,1,2,3.0"), "Invalid transaction type: deposit ");
    assert_eq!(refusal("deposits,1,2,3.0"), "Invalid transaction type: deposits");
    assert_eq!(refusal(",1,2,3.0"), "Invalid transaction type: ");
    assert_eq!(refusal("dépôt,1,2,3.0"), "Invalid transaction type: dépôt");
    assert_eq!(refusal("type,client,tx,amount"), "Invalid transaction type: type");
}

#[test]
fn record_with_a_bad_client_id_is_refused() {
    assert_eq!(refusal("deposit,x,2,3.0"), "Could not parse client id");
    assert_eq!(refusal("deposit,,2,3.0"), "Could not parse client id");
    assert_eq!(refusal("deposit,65536,2,3.0"), "Could not parse client id");
    assert_eq!(refusal("deposit,-1,2,3.0"), "Could not parse client id");
    assert_eq!(refusal("deposit, 1,2,3.0"), "Could not parse client id");
    assert_eq!(refusal("deposit,1.0,2,3.0"), "Could not parse client id");
    assert_eq!(refusal("deposit,+,2,3.0"), "Could not parse client id");
    assert_eq!(
        refusal("deposit,99999999999999999999999999999999,2,3.0"),
        "Could not parse client id"
    );
    assert_eq!(refusal("dispute,x,2,"), "Could not parse client id");
}

#[test]
fn record_with_a_bad_transaction_id_is_refused() {
    assert_eq!(refusal("deposit,1,x,3.0"), "Could not parse transaction id");
    assert_eq!(refusal("deposit,1,,3.0"), "Could not parse transaction id");
    assert_eq!(refusal("deposit,1,4294967296,3.0"), "Could not parse transaction id");
    assert_eq!(refusal("deposit,1,-2,3.0"), "Could not parse transaction id");
    assert_eq!(refusal("chargeback,1,x,"), "Could not parse transaction id");
}

#[test]
fn record_with_a_bad_amount_is_refused() {
    assert_eq!(refusal("deposit,1,2,"), "Could not parse amount");
    assert_eq!(refusal("deposit,1,2,abc"), "Could not parse amount");
    assert_eq!(refusal("withdrawal,1,2,"), "Could not parse amount");
    assert_eq!(refusal("withdrawal,1,2,1.0.0"), "Could not parse amount");
    assert_eq!(refusal("deposit,1,2, 1.0"), "Could not parse amount");
    assert_eq!(
        refusal("deposit,1,2,100000000000000000000000000000"),
        "Could not parse amount"
    );
}

#[test]
fn record_is_checked_field_by_field_in_order() {
    assert_eq!(refusal("refund,x,y,z"), "Invalid transaction type: refund");
    assert_eq!(refusal("deposit,x,y,z"), "Could not parse client id");
    assert_eq!(refusal("deposit,1,y,z"), "Could not parse transaction id");
    assert_eq!(refusal("deposit,1,2,z"), "Could not parse amount");
}

#[test]
fn record_ids_may_carry_a_plus_sign_and_leading_zeros() {
    let t = Transaction::from_str("deposit,+7,+0008,1").unwrap();
    assert_eq!(t.client_id(), 7);
    assert_eq!(t.transaction_id(), 8);
    let t = Transaction::from_str("deposit,0,00000000000000000000000000,1").unwrap();
    assert_eq!(t.client_id(), 0);
    assert_eq!(t.transaction_id(), 0);
}

#[test]
fn kind_is_read_from_its_keyword() {
    assert_eq!(TransactionType::from_str("deposit").unwrap(), TransactionType::Deposit);
    assert_eq!(TransactionType::from_str("withdrawal").unwrap(), TransactionType::Withdrawal);
    assert_eq!(TransactionType::from_str("dispute").unwrap(), TransactionType::Dispute);
    assert_eq!(TransactionType::from_str("resolve").unwrap(), TransactionType::Resolve);
    assert_eq!(TransactionType::from_str("chargeback").unwrap(), TransactionType::Chargeback);
    match TransactionType::from_str("transfer") {
        Err(PaymentError::PaymentProcessingError(message)) => {
            assert_eq!(message, "Invalid transaction type: transfer")
        }
        other => panic!("expected a processing error, got {:?}", other),
    }
}

#[test]
fn transaction_made_by_hand_is_not_under_dispute() {
    let t = Transaction::new(TransactionType::Deposit, 3, 4, Amount::from_units(5));
    assert_eq!(t.transaction_type(), TransactionType::Deposit);
    assert_eq!(t.client_id(), 3);
    assert_eq!(t.transaction_id(), 4);
    assert_eq!(t.amount().units(), 5);
    assert!(!t.under_dispute());
}

#[test]
fn error_carries_its_message() {
    let e = Transaction::from_str("deposit,1,2,z").unwrap_err();
    assert_eq!(e.message(), "Could not parse amount");
    let copy = e.clone();
    assert_eq!(copy.message(), "Could not parse amount");
    assert!(matches!(copy, PaymentError::PaymentProcessingError(_)));
}
