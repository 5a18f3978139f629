use axum_frontend::dev::{DevConfig, SpawnError};
use std::path::PathBuf;
use std::time::Duration;

fn strings(parts: &[&str]) -> Vec<String> {
  parts.iter().map(|s| s.to_string()).collect()
}

#[test]
fn vite_preset_injects_host_and_port() {
  let argv = DevConfig::vite()
    .host("127.0.0.1".to_string())
    .port(4321)
    .command_line();

  assert!(
    argv.windows(2).any(|w| w == ["--host", "127.0.0.1"]),
    "vite preset must pin --host: {argv:?}"
  );
  assert_eq!(argv.first().map(String::as_str), Some("pnpm"));
  assert!(argv.contains(&"--strictPort".to_string()));
  assert!(argv.contains(&"4321".to_string()));
}

#[test]
fn tool_neutral_config_injects_no_flags() {
  let argv = DevConfig::new(strings(&["npm", "run", "dev"]))
    .port(3000)
    .command_line();

  assert_eq!(argv, vec!["npm", "run", "dev"]);
}

#[test]
fn vite_command_line_is_exact() {
  let argv = DevConfig::vite().command_line();

  assert_eq!(
    argv,
    vec!["pnpm", "dev", "--host", "127.0.0.1", "--port", "5173", "--strictPort"]
  );
}

#[test]
fn vite_command_line_follows_host_and_port() {
  let argv = DevConfig::vite()
    .command(strings(&["npx", "vite"]))
    .host("0.0.0.0".to_string())
    .port(8)
    .command_line();

  assert_eq!(
    argv,
    vec!["npx", "vite", "--host", "0.0.0.0", "--port", "8", "--strictPort"]
  );
}

#[test]
fn port_renders_in_decimal() {
  for (port, text) in [(0u16, "0"), (9, "9"), (10, "10"), (80, "80"), (65535, "65535")] {
    let argv = DevConfig::vite().port(port).command_line();

    assert_eq!(argv[5], text);
  }
}

#[test]
fn command_overrides_the_vite_program() {
  let argv = DevConfig::vite().command(strings(&["yarn", "dev"])).command_line();

  assert_eq!(argv[0], "yarn");
  assert_eq!(argv[1], "dev");
  assert_eq!(argv.len(), 7);
}

#[test]
fn spawn_plan_splits_program_and_args() {
  let plan = DevConfig::new(strings(&["npm", "run", "dev"]))
    .host("localhost".to_string())
    .port(3000)
    .spawn_plan()
    .unwrap();

  assert_eq!(plan.program, "npm");
  assert_eq!(plan.args, vec!["run", "dev"]);
  assert_eq!(plan.host, "localhost");
  assert_eq!(plan.port, 3000);
  assert!(plan.cwd.is_none());
  assert!(plan.env.is_empty());
}

#[test]
fn spawn_plan_defaults_to_a_sixty_second_timeout() {
  let plan = DevConfig::new(strings(&["npm"])).spawn_plan().unwrap();

  assert_eq!(plan.ready_timeout, Duration::from_secs(60));
  assert_eq!(plan.host, "127.0.0.1");
  assert_eq!(plan.port, 5173);
  assert!(plan.args.is_empty());
}

#[test]
fn spawn_plan_carries_cwd_and_timeout() {
  let plan = DevConfig::new(strings(&["pnpm", "dev"]))
    .cwd(PathBuf::from("frontend"))
    .ready_timeout(Duration::from_millis(1500))
    .spawn_plan()
    .unwrap();

  assert_eq!(plan.cwd, Some(PathBuf::from("frontend")));
  assert_eq!(plan.ready_timeout, Duration::from_millis(1500));
}

#[test]
fn spawn_plan_rejects_an_empty_command() {
  let result = DevConfig::new(Vec::new()).spawn_plan();

  assert_eq!(result.err(), Some(SpawnError::EmptyCommand));
}

#[test]
fn spawn_plan_of_vite_with_empty_command_is_rejected() {
  let result = DevConfig::vite().command(Vec::new()).spawn_plan();

  assert_eq!(result.err(), Some(SpawnError::EmptyCommand));
}

#[test]
fn env_later_value_wins() {
  let plan = DevConfig::new(strings(&["npm"]))
    .env("A".to_string(), "1".to_string())
    .env("B".to_string(), "2".to_string())
    .env("A".to_string(), "3".to_string())
    .spawn_plan()
    .unwrap();

  let mut env = plan.env.clone();
  env.sort();

  assert_eq!(
    env,
    vec![
      ("A".to_string(), "3".to_string()),
      ("B".to_string(), "2".to_string())
    ]
  );
}
