use gateway721::msg::{ContractError, ExecuteMsg, InstantiateMsg};
use gateway721::state::{Gateway721Contract, Metadata};
use gateway721::traits::{Gateway721Execute, Gateway721Query};

fn setup(operator: &str) -> Gateway721Contract {
    Gateway721Contract::instantiate(
        InstantiateMsg { name: "n".to_string(), symbol: "s".to_string() },
        operator.to_string(),
    )
}

fn mint(c: &mut Gateway721Contract, extension: Option<Metadata>) {
    c.execute(
        "a".to_string(),
        ExecuteMsg::Mint {
            token_id: "ignored".to_string(),
            owner: "a".to_string(),
            token_uri: None,
            extension,
        },
    )
    .unwrap();
}

fn incomplete() -> Metadata {
    Metadata { title: None, description: Some("d".to_string()), ..Metadata::default() }
}

fn complete() -> Metadata {
    Metadata {
        title: Some("t".to_string()),
        description: Some("d".to_string()),
        ..Metadata::default()
    }
}

#[test]
fn only_incomplete_extensions_are_indexed() {
    let mut c = setup("op");
    mint(&mut c, Some(incomplete()));
    mint(&mut c, Some(complete()));
    mint(&mut c, None);
    mint(&mut c, Some(Metadata { description: None, ..incomplete() }));
    assert_eq!(
        c.incomplete_projects().unwrap().pids,
        vec!["0".to_string(), "3".to_string()]
    );
}

#[test]
fn index_keeps_insertion_order_and_uniqueness() {
    let mut c = setup("op");
    for _ in 0..3 {
        mint(&mut c, Some(incomplete()));
    }
    assert_eq!(
        c.incomplete_projects().unwrap().pids,
        vec!["0".to_string(), "1".to_string(), "2".to_string()]
    );

    c.update("op".to_string(), "1".to_string(), "t".to_string(), "x".to_string())
        .unwrap();
    assert_eq!(
        c.incomplete_projects().unwrap().pids,
        vec!["0".to_string(), "2".to_string()]
    );

    // a failed second update leaves the index untouched
    let err = c
        .update("op".to_string(), "1".to_string(), "t".to_string(), "x".to_string())
        .unwrap_err();
    assert_eq!(err, ContractError::AlreadyComplete);
    assert_eq!(
        c.incomplete_projects().unwrap().pids,
        vec!["0".to_string(), "2".to_string()]
    );

    // later mints append fresh ids only
    mint(&mut c, Some(incomplete()));
    assert_eq!(
        c.incomplete_projects().unwrap().pids,
        vec!["0".to_string(), "2".to_string(), "3".to_string()]
    );
}

#[test]
fn requests_and_responses_leave_the_index_alone() {
    let mut c = setup("op");
    mint(&mut c, Some(incomplete()));
    c.request("b".to_string(), "0".to_string(), "x".to_string()).unwrap();
    c.response("op".to_string(), "0".to_string(), "0".to_string(), "y".to_string())
        .unwrap();
    assert_eq!(c.incomplete_projects().unwrap().pids, vec!["0".to_string()]);
}

#[test]
fn completed_token_never_reenters_the_index() {
    let mut c = setup("op");
    mint(&mut c, Some(incomplete()));
    c.update("op".to_string(), "0".to_string(), "t".to_string(), "d".to_string())
        .unwrap();
    assert!(c.incomplete_projects().unwrap().pids.is_empty());

    mint(&mut c, Some(incomplete()));
    c.request("b".to_string(), "0".to_string(), "x".to_string()).unwrap();
    let err = c
        .update("op".to_string(), "0".to_string(), "t2".to_string(), "d2".to_string())
        .unwrap_err();
    assert_eq!(err, ContractError::AlreadyComplete);
    assert_eq!(c.incomplete_projects().unwrap().pids, vec!["1".to_string()]);
}
