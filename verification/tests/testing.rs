use serde_json::Value;
use sm_executor::testing::{
    all_equal, all_equal_result, assert_all_equal, assert_all_equal_result, block_height_response,
    LEGACY_HARDCODED_INSTANCE_ID_WALLET,
};
use sm_executor::trigger::select_trigger;

#[test]
fn equal_answers_agree() {
    assert!(all_equal(&vec![3u64, 3, 3]));
    assert!(all_equal(&vec![true]));
    assert!(all_equal(&Vec::<u8>::new()));
    assert!(!all_equal(&vec![3u64, 3, 4]));
    assert!(!all_equal(&vec![false, true]));
    assert!(all_equal(&vec![Some(1u8), Some(1)]));
    assert!(!all_equal(&vec![Some(1u8), None]));
}

#[test]
fn the_common_answer_is_the_first() {
    assert_eq!(assert_all_equal(vec![7u64, 7, 7]), 7);
    assert_eq!(assert_all_equal(vec![None::<u8>]), None);
    assert_eq!(assert_all_equal(vec![false, false]), false);
}

#[test]
fn equal_results_agree() {
    let ok = |n: u64| -> Result<u64, String> { Ok(n) };
    let err = |text: &str| -> Result<u64, String> { Err(text.to_string()) };
    assert!(all_equal_result(&vec![ok(1), ok(1)]));
    assert!(!all_equal_result(&vec![ok(1), ok(2)]));
    assert!(!all_equal_result(&vec![ok(1), err("x")]));
    assert!(!all_equal_result(&vec![err("x"), ok(1)]));
    assert!(all_equal_result(&vec![err("x"), err("x"), err("x")]));
    assert!(!all_equal_result(&vec![err("x"), err("y")]));
    assert!(all_equal_result(&Vec::<Result<u64, String>>::new()));
    assert!(all_equal_result(&vec![err("alone")]));
}

#[test]
fn the_common_result_is_the_first() {
    let results: Vec<Result<u64, String>> = vec![Ok(5), Ok(5)];
    assert_eq!(assert_all_equal_result(results), Ok(5));
    let failures: Vec<Result<u64, String>> = vec![Err("bad".into()), Err("bad".into())];
    assert_eq!(assert_all_equal_result(failures), Err("bad".to_string()));
}

#[test]
fn block_height_is_answered_as_a_number() {
    assert_eq!(LEGACY_HARDCODED_INSTANCE_ID_WALLET, 2);
    let response = block_height_response(2, "/block_height", 840_000);
    assert_eq!(response, Value::from(840_000u64));
    assert_eq!(response.as_u64(), Some(840_000));
    assert_eq!(response.to_string(), "840000");
    assert_eq!(block_height_response(2, "/block_height", u64::MAX).as_u64(), Some(u64::MAX));
}

#[test]
fn lowest_ready_trigger_wins() {
    assert_eq!(select_trigger(vec![]), None);
    assert_eq!(select_trigger(vec![None, None]), None);
    assert_eq!(
        select_trigger(vec![Some(Value::from(1u64)), Some(Value::from(2u64))]),
        Some((0, Value::from(1u64)))
    );
    assert_eq!(
        select_trigger(vec![None, Some(Value::from("b")), Some(Value::from("c"))]),
        Some((1, Value::from("b")))
    );
    assert_eq!(
        select_trigger(vec![None, None, Some(Value::Null)]),
        Some((2, Value::Null))
    );
}
