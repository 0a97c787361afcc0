use gateway721::msg::{ContractError, ExecuteMsg, InstantiateMsg, QueryAnswer, QueryMsg};
use gateway721::state::{Gateway721Contract, Metadata};
use gateway721::traits::{Gateway721Execute, Gateway721Query};

const CREATOR: &str = "creator";

fn setup(operator: &str) -> Gateway721Contract {
    Gateway721Contract::instantiate(
        InstantiateMsg { name: "SpaceShips".to_string(), symbol: "SPACE".to_string() },
        operator.to_string(),
    )
}

fn mint_msg(owner: &str, extension: Option<Metadata>) -> ExecuteMsg {
    ExecuteMsg::Mint {
        token_id: "Not used".to_string(),
        owner: owner.to_string(),
        token_uri: None,
        extension,
    }
}

#[test]
fn use_metadata_extension() {
    let mut contract = setup(CREATOR);

    let extension = Some(Metadata { code: "MEOW".into(), ..Metadata::default() });
    let exec_msg = ExecuteMsg::Mint {
        token_id: "Not used".to_string(),
        owner: "john".to_string(),
        token_uri: Some("Not used".into()),
        extension: extension.clone(),
    };
    contract.execute(CREATOR.to_string(), exec_msg).unwrap();

    let res = contract.tokens[0].extension.clone();
    assert_eq!(
        res.expect("Extension is None"),
        extension.expect("Extension is None"),
        "Extension does not match"
    );
}

#[test]
fn instantiate_starts_empty() {
    let contract = setup("op");
    assert_eq!(contract.name, "SpaceShips");
    assert_eq!(contract.symbol, "SPACE");
    assert_eq!(contract.minter, "op");
    assert!(contract.tokens.is_empty());
    let pids = contract.incomplete_projects().unwrap().pids;
    assert!(pids.is_empty());
}

#[test]
fn full_task_and_completion_flow() {
    let mut c = setup("op");

    let ext = Metadata {
        title: None,
        description: Some("d".to_string()),
        ..Metadata::default()
    };
    let resp = c.execute("alice".to_string(), mint_msg("alice", Some(ext))).unwrap();
    assert_eq!(resp.attributes[3].value, "0");
    assert_eq!(c.incomplete_projects().unwrap().pids, vec!["0".to_string()]);

    let resp = c
        .request("bob".to_string(), "0".to_string(), "compute X".to_string())
        .unwrap();
    assert_eq!(resp.attributes[3].value, "0");
    assert_eq!(c.remains("0".to_string()).unwrap().tids, vec!["0".to_string()]);

    c.response("op".to_string(), "0".to_string(), "0".to_string(), "42".to_string())
        .unwrap();
    assert_eq!(c.remains("0".to_string()).unwrap().tids, Vec::<String>::new());
    assert_eq!(
        c.tokens[0].extension.as_ref().unwrap().tasks.as_ref().unwrap()[0].output,
        Some("42".to_string())
    );

    c.update("op".to_string(), "0".to_string(), "t".to_string(), "d".to_string())
        .unwrap();
    let m = c.tokens[0].extension.clone().unwrap();
    assert_eq!(m.title, Some("t".to_string()));
    assert_eq!(m.description, Some("d".to_string()));
    assert!(c.incomplete_projects().unwrap().pids.is_empty());

    let err = c
        .update("op".to_string(), "0".to_string(), "x".to_string(), "y".to_string())
        .unwrap_err();
    assert_eq!(err, ContractError::AlreadyComplete);
}

#[test]
fn sequential_task_ids() {
    let mut c = setup("op");
    c.execute("a".to_string(), mint_msg("a", Some(Metadata::default()))).unwrap();

    for (n, expected) in ["0", "1", "2"].iter().enumerate() {
        let resp = c
            .request("a".to_string(), "0".to_string(), format!("job {}", n))
            .unwrap();
        assert_eq!(resp.attributes[3].value, *expected);
    }
    assert_eq!(
        c.remains("0".to_string()).unwrap().tids,
        vec!["0".to_string(), "1".to_string(), "2".to_string()]
    );

    c.response("op".to_string(), "0".to_string(), "1".to_string(), "done".to_string())
        .unwrap();
    assert_eq!(
        c.remains("0".to_string()).unwrap().tids,
        vec!["0".to_string(), "2".to_string()]
    );
}

#[test]
fn token_ids_grow_past_one_digit() {
    let mut c = setup("op");
    for _ in 0..11 {
        c.execute("a".to_string(), mint_msg("a", Some(Metadata::default()))).unwrap();
    }
    let resp = c
        .request("a".to_string(), "10".to_string(), "x".to_string())
        .unwrap();
    assert_eq!(resp.attributes[2].value, "10");
    assert_eq!(resp.attributes[3].value, "0");
}

#[test]
fn token_lookup_is_by_exact_numeral() {
    let mut c = setup("op");
    c.execute("a".to_string(), mint_msg("a", Some(Metadata::default()))).unwrap();
    let err = c
        .request("a".to_string(), "00".to_string(), "x".to_string())
        .unwrap_err();
    assert_eq!(err, ContractError::TokenNotFound);
    let err = c
        .request("a".to_string(), "01".to_string(), "x".to_string())
        .unwrap_err();
    assert_eq!(err, ContractError::TokenNotFound);
}

#[test]
fn update_leaves_set_fields_untouched() {
    let mut c = setup("op");
    let ext = Metadata {
        title: None,
        description: Some("original".to_string()),
        ..Metadata::default()
    };
    c.execute("a".to_string(), mint_msg("a", Some(ext))).unwrap();
    c.update(
        "op".to_string(),
        "0".to_string(),
        "new title".to_string(),
        "other description".to_string(),
    )
    .unwrap();
    let m = c.tokens[0].extension.clone().unwrap();
    assert_eq!(m.title, Some("new title".to_string()));
    assert_eq!(m.description, Some("original".to_string()));
}

#[test]
fn mint_attributes() {
    let mut c = setup("op");
    let resp = c.execute("minter-caller".to_string(), mint_msg("the-owner", None)).unwrap();
    let kv: Vec<(String, String)> = resp
        .attributes
        .iter()
        .map(|a| (a.key.clone(), a.value.clone()))
        .collect();
    assert_eq!(
        kv,
        vec![
            ("action".to_string(), "mint".to_string()),
            ("minter".to_string(), "minter-caller".to_string()),
            ("owner".to_string(), "the-owner".to_string()),
            ("token_id".to_string(), "0".to_string()),
        ]
    );
}

#[test]
fn request_response_update_attributes() {
    let mut c = setup("op");
    c.execute("a".to_string(), mint_msg("a", Some(Metadata::default()))).unwrap();

    let resp = c
        .request("req-caller".to_string(), "0".to_string(), "in".to_string())
        .unwrap();
    let kv: Vec<(String, String)> = resp
        .attributes
        .iter()
        .map(|a| (a.key.clone(), a.value.clone()))
        .collect();
    assert_eq!(
        kv,
        vec![
            ("action".to_string(), "request".to_string()),
            ("requester".to_string(), "req-caller".to_string()),
            ("token_id".to_string(), "0".to_string()),
            ("task_id".to_string(), "0".to_string()),
        ]
    );

    let resp = c
        .response("op".to_string(), "0".to_string(), "0".to_string(), "out".to_string())
        .unwrap();
    let kv: Vec<(String, String)> = resp
        .attributes
        .iter()
        .map(|a| (a.key.clone(), a.value.clone()))
        .collect();
    assert_eq!(
        kv,
        vec![
            ("action".to_string(), "response".to_string()),
            ("token_id".to_string(), "0".to_string()),
            ("task_id".to_string(), "0".to_string()),
        ]
    );

    let resp = c
        .update("op".to_string(), "0".to_string(), "t".to_string(), "d".to_string())
        .unwrap();
    let kv: Vec<(String, String)> = resp
        .attributes
        .iter()
        .map(|a| (a.key.clone(), a.value.clone()))
        .collect();
    assert_eq!(
        kv,
        vec![
            ("action".to_string(), "update".to_string()),
            ("token_id".to_string(), "0".to_string()),
        ]
    );
}

#[test]
fn query_dispatch() {
    let mut c = setup("op");
    let ext = Metadata { title: None, ..Metadata::default() };
    c.execute("a".to_string(), mint_msg("a", Some(ext))).unwrap();
    c.request("a".to_string(), "0".to_string(), "in".to_string()).unwrap();

    match c.query(QueryMsg::Remains { token_id: "0".to_string() }).unwrap() {
        QueryAnswer::Remains(r) => assert_eq!(r.tids, vec!["0".to_string()]),
        other => panic!("unexpected answer: {:?}", other),
    }
    match c.query(QueryMsg::IncompleteProjects {}).unwrap() {
        QueryAnswer::IncompleteProjects(r) => assert_eq!(r.pids, vec!["0".to_string()]),
        other => panic!("unexpected answer: {:?}", other),
    }
    let err = c
        .query(QueryMsg::Remains { token_id: "7".to_string() })
        .unwrap_err();
    assert_eq!(err, ContractError::TokenNotFound);
}
