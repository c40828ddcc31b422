use backtune::dir::{app_dir, get_settings, get_sounds_dir};

#[test]
fn app_folders() {
    assert_eq!(app_dir(), vec!["Backtune".to_string()]);
    assert_eq!(get_sounds_dir(), vec!["Backtune".to_string(), "sounds".to_string()]);
    assert_eq!(get_settings(), vec!["Backtune".to_string(), "settings.json".to_string()]);
}
