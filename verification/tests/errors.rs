use gateway721::msg::{ContractError, ExecuteMsg, InstantiateMsg};
use gateway721::state::{Gateway721Contract, Metadata, Task};
use gateway721::traits::{Gateway721Execute, Gateway721Query};

fn setup(operator: &str) -> Gateway721Contract {
    Gateway721Contract::instantiate(
        InstantiateMsg { name: "n".to_string(), symbol: "s".to_string() },
        operator.to_string(),
    )
}

fn mint(c: &mut Gateway721Contract, caller: &str, extension: Option<Metadata>) {
    c.execute(
        caller.to_string(),
        ExecuteMsg::Mint {
            token_id: "ignored".to_string(),
            owner: caller.to_string(),
            token_uri: None,
            extension,
        },
    )
    .unwrap();
}

#[test]
fn request_token_not_found() {
    let mut c = setup("op");
    let err = c
        .request("a".to_string(), "0".to_string(), "x".to_string())
        .unwrap_err();
    assert_eq!(err, ContractError::TokenNotFound);
}

#[test]
fn request_without_extension_is_invalid() {
    let mut c = setup("op");
    mint(&mut c, "a", None);
    let err = c
        .request("a".to_string(), "0".to_string(), "x".to_string())
        .unwrap_err();
    assert_eq!(err, ContractError::InvalidExtension);
}

#[test]
fn response_requires_operator() {
    let mut c = setup("op");
    mint(&mut c, "a", Some(Metadata::default()));
    c.request("a".to_string(), "0".to_string(), "x".to_string()).unwrap();
    let err = c
        .response("a".to_string(), "0".to_string(), "0".to_string(), "y".to_string())
        .unwrap_err();
    assert_eq!(err, ContractError::Unauthorized);
    // the authorization check comes first, even for unknown tokens
    let err = c
        .response("mallory".to_string(), "99".to_string(), "0".to_string(), "y".to_string())
        .unwrap_err();
    assert_eq!(err, ContractError::Unauthorized);
}

#[test]
fn response_token_and_task_errors() {
    let mut c = setup("op");
    let err = c
        .response("op".to_string(), "0".to_string(), "0".to_string(), "y".to_string())
        .unwrap_err();
    assert_eq!(err, ContractError::TokenNotFound);

    mint(&mut c, "a", None);
    let err = c
        .response("op".to_string(), "0".to_string(), "0".to_string(), "y".to_string())
        .unwrap_err();
    assert_eq!(err, ContractError::InvalidExtension);

    mint(&mut c, "a", Some(Metadata::default()));
    // no task list yet
    let err = c
        .response("op".to_string(), "1".to_string(), "0".to_string(), "y".to_string())
        .unwrap_err();
    assert_eq!(err, ContractError::TaskNotFound);

    c.request("a".to_string(), "1".to_string(), "x".to_string()).unwrap();
    // no task with that id
    let err = c
        .response("op".to_string(), "1".to_string(), "5".to_string(), "y".to_string())
        .unwrap_err();
    assert_eq!(err, ContractError::TaskNotFound);
}

#[test]
fn response_rejects_refulfillment() {
    let mut c = setup("op");
    mint(&mut c, "a", Some(Metadata::default()));
    c.request("a".to_string(), "0".to_string(), "x".to_string()).unwrap();
    c.response("op".to_string(), "0".to_string(), "0".to_string(), "first".to_string())
        .unwrap();
    let err = c
        .response("op".to_string(), "0".to_string(), "0".to_string(), "second".to_string())
        .unwrap_err();
    assert_eq!(err, ContractError::TaskNotFound);
    // the recorded output is untouched
    let tasks: &Vec<Task> = c.tokens[0].extension.as_ref().unwrap().tasks.as_ref().unwrap();
    assert_eq!(tasks[0].output, Some("first".to_string()));
}

#[test]
fn update_requires_operator() {
    let mut c = setup("op");
    mint(&mut c, "a", Some(Metadata::default()));
    let err = c
        .update("a".to_string(), "0".to_string(), "t".to_string(), "d".to_string())
        .unwrap_err();
    assert_eq!(err, ContractError::Unauthorized);
}

#[test]
fn update_token_and_field_errors() {
    let mut c = setup("op");
    let err = c
        .update("op".to_string(), "0".to_string(), "t".to_string(), "d".to_string())
        .unwrap_err();
    assert_eq!(err, ContractError::TokenNotFound);

    mint(&mut c, "a", None);
    let err = c
        .update("op".to_string(), "0".to_string(), "t".to_string(), "d".to_string())
        .unwrap_err();
    assert_eq!(err, ContractError::InvalidFields);

    let complete = Metadata {
        title: Some("t".to_string()),
        description: Some("d".to_string()),
        ..Metadata::default()
    };
    mint(&mut c, "a", Some(complete));
    let err = c
        .update("op".to_string(), "1".to_string(), "t2".to_string(), "d2".to_string())
        .unwrap_err();
    assert_eq!(err, ContractError::AlreadyComplete);
}

#[test]
fn mint_and_request_are_open_to_any_caller() {
    let mut c = setup("op");
    mint(&mut c, "complete-stranger", Some(Metadata::default()));
    c.request("another-stranger".to_string(), "0".to_string(), "x".to_string())
        .unwrap();
    let resp = c
        .request("yet-another".to_string(), "0".to_string(), "y".to_string())
        .unwrap();
    assert_eq!(resp.attributes[3].value, "1");
}

#[test]
fn remains_token_not_found() {
    let c = setup("op");
    let err = c.remains("0".to_string()).unwrap_err();
    assert_eq!(err, ContractError::TokenNotFound);
}

#[test]
fn remains_defaults_to_empty() {
    let mut c = setup("op");
    mint(&mut c, "a", None);
    mint(&mut c, "a", Some(Metadata::default()));
    // no extension record at all
    assert_eq!(c.remains("0".to_string()).unwrap().tids, Vec::<String>::new());
    // extension record without a task list
    assert_eq!(c.remains("1".to_string()).unwrap().tids, Vec::<String>::new());
}
