use tardi::config::{Config, EditMode, ReplConfig};
use tardi::loader::Loader;
use tardi::machine::Tardi;
use tardi::value::ValueData;

#[test]
fn test_tardi_execute_str() {
    let mut tardi = Tardi::new(None).unwrap();

    let result = tardi.execute_str("42");
    assert!(result.is_ok());

    let stack: Vec<ValueData> = tardi.stack().into_iter().map(|v| v.data).collect();
    assert_eq!(stack, vec![ValueData::Integer(42)]);
}

#[test]
fn repl_config_default_uses_emacs_keybindings() {
    let config = ReplConfig::default();
    assert_eq!(EditMode::Emacs, config.edit_mode);
}

#[test]
fn config_default_includes_current_directory_in_module_path() {
    let pwd = "/home/user/project".to_string();
    let config = Config::new(pwd.clone());
    assert!(config.module_paths.contains(&pwd));
}

#[test]
fn config_default_includes_repl_settings_defaults() {
    let config = Config::new("/home/user/project".to_string());
    assert_eq!(EditMode::Emacs, config.repl.edit_mode);
    assert!(config.repl.history_file.is_none());
}

#[test]
fn loader_from_config_searches_the_module_path() {
    let config = Config::new("/home/user/project".to_string());
    let loader = Loader::from_config(&config);
    assert_eq!(loader.paths, vec!["/home/user/project".to_string()]);
}

#[test]
fn default_config_file_is_beside_the_process() {
    assert_eq!(tardi::config::init_default_config().unwrap(), "./tardi.toml".to_string());
}
