use remote_cmd::launch::{child_environment, plan_launch};
use remote_cmd::RemoteCommand;

fn pair(k: &str, v: &str) -> (String, String) {
    (k.to_string(), v.to_string())
}

#[test]
fn overrides_apply_in_order() {
    let inherited = vec![pair("PATH", "/bin"), pair("HOME", "/root")];
    let overrides = vec![pair("NAME", "grok"), pair("HOME", "/tmp"), pair("NAME", "last")];
    let env = child_environment(&inherited, &overrides);
    assert_eq!(env, vec![pair("PATH", "/bin"), pair("HOME", "/tmp"), pair("NAME", "last")]);
}

#[test]
fn repeated_inherited_keys_are_listed_once() {
    let inherited = vec![pair("A", "1"), pair("A", "2")];
    let env = child_environment(&inherited, &Vec::new());
    assert_eq!(env, vec![pair("A", "2")]);
}

#[test]
fn plan_has_program_args_and_env() {
    let req = RemoteCommand::new("bash")
        .arg("-c")
        .arg("echo $NAME")
        .env("NAME", "grok")
        .into_request();
    let plan = plan_launch(&req, &vec![pair("NAME", "old"), pair("X", "y")]);
    assert_eq!(plan.program, "bash");
    assert_eq!(plan.args, vec!["-c".to_string(), "echo $NAME".to_string()]);
    assert_eq!(plan.env, vec![pair("NAME", "grok"), pair("X", "y")]);
}

#[test]
fn plan_without_args_or_env() {
    let req = RemoteCommand::new("true").into_request();
    let plan = plan_launch(&req, &vec![pair("X", "y")]);
    assert!(plan.args.is_empty());
    assert_eq!(plan.env, vec![pair("X", "y")]);
}
