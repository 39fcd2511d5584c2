use sm_action::action::begin;
use sm_action::action::plan_exposure;
use sm_action::action::Exposure;
use sm_action::command::ShellInvocation;
use sm_action::error::ActionError;
use sm_action::identifier::SecretId;
use sm_action::persist::Effect;
use sm_action::projection::EnvProjection;
use sm_action::projection::SecretRecord;

fn lines() -> Vec<String> {
    vec![
        "91ba3f10-a9a2-4795-bacf-0eee2d39a074 > ONE".to_string(),
        "bfd7aa33-54f2-487b-bbbf-4a69b49fdc0d > TWO".to_string(),
    ]
}

fn one_secret() -> EnvProjection {
    let mut env = EnvProjection::new();
    env.insert("ONE".to_string(), "first".to_string());
    env
}

#[test]
fn run_goes_from_input_to_projection() {
    let login = begin(lines()).unwrap();
    assert!(login.warnings().is_empty());

    let session = login.logged_in(Ok(())).unwrap();
    let mut wanted = session.wanted();
    wanted.sort_by_key(|id| id.value);
    assert_eq!(
        wanted,
        vec![
            SecretId {
                value: 0x91ba3f10a9a24795bacf0eee2d39a074
            },
            SecretId {
                value: 0xbfd7aa3354f2487bbbbf4a69b49fdc0d
            },
        ]
    );

    let env = session
        .resolved(Ok(vec![
            SecretRecord {
                id: SecretId {
                    value: 0xbfd7aa3354f2487bbbbf4a69b49fdc0d,
                },
                value: "second".to_string(),
            },
            SecretRecord {
                id: SecretId { value: 42 },
                value: "stale".to_string(),
            },
            SecretRecord {
                id: SecretId {
                    value: 0x91ba3f10a9a24795bacf0eee2d39a074,
                },
                value: "first".to_string(),
            },
        ]))
        .unwrap();

    assert_eq!(env.len(), 2);
    assert_eq!(env.get("ONE"), Some(&"first".to_string()));
    assert_eq!(env.get("TWO"), Some(&"second".to_string()));
}

#[test]
fn run_ends_on_malformed_input() {
    let error = begin(vec!["invalid-uuid > X".to_string()]).unwrap_err();

    assert_eq!(
        error,
        ActionError::MalformedIdentifier {
            text: "invalid-uuid".to_string()
        }
    );
}

#[test]
fn run_reports_duplicates_before_login() {
    let login = begin(vec![
        "91ba3f10-a9a2-4795-bacf-0eee2d39a074 > ONE".to_string(),
        "91ba3f10-a9a2-4795-bacf-0eee2d39a074 > TWO".to_string(),
    ])
    .unwrap();

    assert_eq!(login.warnings().len(), 1);
    assert_eq!(
        login.warnings()[0].message(),
        "Warning: Duplicate UUID found: 91ba3f10-a9a2-4795-bacf-0eee2d39a074. Old value: ONE, New value: TWO"
    );
}

#[test]
fn run_ends_on_refused_login() {
    let error = begin(lines())
        .unwrap()
        .logged_in(Err("bad token".to_string()))
        .unwrap_err();

    assert_eq!(
        error,
        ActionError::AuthenticationFailed {
            cause: "bad token".to_string()
        }
    );
}

#[test]
fn run_ends_on_refused_request() {
    let error = begin(lines())
        .unwrap()
        .logged_in(Ok(()))
        .unwrap()
        .resolved(Err("not found".to_string()))
        .unwrap_err();

    assert_eq!(
        error,
        ActionError::ResolutionFailed {
            cause: "not found".to_string()
        }
    );
}

#[test]
fn vault_that_returns_nothing_gives_an_empty_projection() {
    let env = begin(lines())
        .unwrap()
        .logged_in(Ok(()))
        .unwrap()
        .resolved(Ok(Vec::new()))
        .unwrap();

    assert!(env.is_empty());
}

#[test]
fn secrets_are_persisted_where_no_command_is_configured() {
    let exposure = plan_exposure(&one_secret(), None, "linux");

    let Exposure::Persist(effects) = exposure else {
        panic!("expected the secrets to be persisted");
    };
    assert_eq!(effects.len(), 4);
    assert_eq!(effects[0], Effect::Print("Setting secret: ONE".to_string()));
    assert_eq!(effects[1], Effect::Print("::add-mask::first".to_string()));
    assert!(matches!(&effects[2], Effect::Append(frame) if frame.starts_with("ONE<<ghadelimiter_")));
    assert_eq!(effects[3], Effect::Flush);
}

#[test]
fn command_takes_the_place_of_persisting() {
    let exposure = plan_exposure(&one_secret(), Some("printenv ONE"), "linux");

    assert_eq!(
        exposure,
        Exposure::Run(ShellInvocation {
            shell: "/bin/sh".to_string(),
            flag: "-c".to_string(),
            command: "printenv ONE".to_string(),
        })
    );
}

#[test]
fn blank_command_exposes_nothing() {
    assert_eq!(plan_exposure(&one_secret(), Some(""), "linux"), Exposure::Nothing);
    assert_eq!(plan_exposure(&one_secret(), Some("  \n"), "windows"), Exposure::Nothing);
}
