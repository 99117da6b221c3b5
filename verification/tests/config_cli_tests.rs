use webcrane::cli::{
    init_plan, merge_push_target, parse_command, parse_merge_command, pull_target, Command,
    InitPlan, MergeCommand, PullTarget,
};
use webcrane::config::{
    get_port_config, listen_address, needs_external_ip, new_config, save_manifest, Manifest,
    PortProtocol, Project, DEFAULT_PORT,
};
use webcrane::local::{parent_dir, next_dir_to_clean, plan_move, MoveStep, RemoveDirOutcome};
use webcrane::merge::{relay_step, RelayAction, RelayEvent};

fn args(v: &[&str]) -> Vec<String> {
    v.iter().map(|s| s.to_string()).collect()
}

#[test]
fn new_config_trims_the_name() {
    let c = new_config("  my project\t\n");
    assert_eq!(c.project.name, "my project");
    assert_eq!(c.server.port, 5432);
    assert_eq!(DEFAULT_PORT, 5432);
    assert!(c.server.ip.is_none());
    assert_eq!(new_config("\u{3000}x\u{a0}").project.name, "x");
    assert_eq!(new_config("   ").project.name, "");
}

#[test]
fn save_manifest_writes_nothing() {
    let m = Manifest { project: Project { name: "p".to_string(), ignore: vec![] } };
    save_manifest(&m, "nowhere/Cargo.toml".to_string());
    assert_eq!(m.project.name, "p");
}

#[test]
fn port_config_and_addresses() {
    let m = get_port_config(5432, 3600);
    assert_eq!(m.address, "192.168.0");
    assert_eq!((m.port, m.duration), (5432, 3600));
    assert_eq!(m.protocol, PortProtocol::Tcp);
    assert_eq!(m.comment, "Webcrane server");
    assert_eq!(listen_address([192, 168, 0, 5], 5432), "192.168.0.5:5432");
    assert_eq!(listen_address([0, 0, 0, 0], 0), "0.0.0.0:0");
    assert!(!needs_external_ip([127, 0, 0, 1]));
    assert!(needs_external_ip([192, 168, 1, 1]));
}

#[test]
fn parse_command_modes() {
    let a = args(&["webcrane", "init", "push", "pull", "other"]);
    assert!(matches!(parse_command(&a, 1), Command::Init));
    assert!(matches!(parse_command(&a, 2), Command::Push));
    assert!(matches!(parse_command(&a, 3), Command::Pull));
    assert!(matches!(parse_command(&a, 4), Command::Unknown { mode } if mode == "other"));
    assert!(matches!(parse_command(&a, 5), Command::MissingMode));
    let o = args(&["webcrane", "--init", "--push", "--pull", "--merge"]);
    assert!(matches!(parse_command(&o, 1), Command::Init));
    assert!(matches!(parse_command(&o, 2), Command::Push));
    assert!(matches!(parse_command(&o, 3), Command::Pull));
    assert!(matches!(parse_command(&o, 4), Command::Unknown { mode } if mode == "--merge"));
    assert!(matches!(parse_merge_command(&a, 3), MergeCommand::Pull));
    assert!(matches!(parse_merge_command(&a, 2), MergeCommand::Push));
    assert!(matches!(parse_merge_command(&a, 1), MergeCommand::Unknown { mode } if mode == "init"));
    assert!(matches!(parse_merge_command(&a, 9), MergeCommand::MissingMode));
    assert_eq!(merge_push_target(&a, 4), Some("other".to_string()));
    assert_eq!(merge_push_target(&a, 5), None);
}

#[test]
fn pull_target_decodes_credentials() {
    let a = args(&["webcrane", "pull", "MTI3LjAuMC4xOjU0MzI=", "%%%"]);
    assert!(matches!(pull_target(&a, 2), PullTarget::Url(u) if u == "ws://127.0.0.1:5432"));
    assert!(matches!(pull_target(&a, 3), PullTarget::InvalidCredentials));
    assert!(matches!(pull_target(&a, 4), PullTarget::MissingAddress));
}

#[test]
fn init_plan_follows_existence_checks() {
    assert_eq!(init_plan(false, false), InitPlan::AlreadyInitialized);
    assert_eq!(init_plan(true, false), InitPlan::AlreadyInitialized);
    assert_eq!(init_plan(false, true), InitPlan::AlreadyInitialized);
    assert_eq!(
        init_plan(true, true),
        InitPlan::Create { create_dir: false, create_ignore_file: false }
    );
}

#[test]
fn cleaning_climbs_parent_directories() {
    assert_eq!(parent_dir("a/b/c.txt"), Some("a/b".to_string()));
    assert_eq!(parent_dir("c.txt"), Some("".to_string()));
    assert_eq!(parent_dir(""), None);
    assert_eq!(next_dir_to_clean("a/b", RemoveDirOutcome::Removed), Ok(Some("a".to_string())));
    assert_eq!(next_dir_to_clean("a/b", RemoveDirOutcome::NotEmpty), Ok(None));
    assert_eq!(next_dir_to_clean("a/b", RemoveDirOutcome::NotFound), Ok(None));
    assert!(next_dir_to_clean("a/b", RemoveDirOutcome::Failed).is_err());
}

#[test]
fn move_plan() {
    assert!(matches!(plan_move(false, "x/y"), MoveStep::Skip));
    assert!(matches!(plan_move(true, "x/y"), MoveStep::Move { create_dir: Some(d) } if d == "x"));
}

#[test]
fn relay_echoes_and_ticks() {
    assert_eq!(relay_step(RelayEvent::Text), RelayAction::Echo);
    assert_eq!(relay_step(RelayEvent::Binary), RelayAction::Echo);
    assert_eq!(relay_step(RelayEvent::Tick), RelayAction::SendTick);
    assert_eq!(relay_step(RelayEvent::Close), RelayAction::Stop);
    assert_eq!(relay_step(RelayEvent::StreamEnd), RelayAction::Stop);
    assert_eq!(relay_step(RelayEvent::Other), RelayAction::Ignore);
}

#[test]
fn new_config_keeps_inner_whitespace_and_other_characters() {
    assert_eq!(new_config("\u{2003}a b\u{2028}").project.name, "a b");
    assert_eq!(new_config("\u{200b}x").project.name, "\u{200b}x");
    assert_eq!(new_config("né\u{85}").project.name, "né");
}
