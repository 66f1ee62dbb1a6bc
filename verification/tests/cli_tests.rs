use mixed::cli::{CliAction, CliOptions};

fn parse(args: &[&str]) -> CliAction {
    let args: Vec<String> = args.iter().map(|a| a.to_string()).collect();
    let dirs: Vec<bool> = args.iter().map(|a| std::path::Path::new(a).is_dir()).collect();
    CliOptions::parse(&args, &dirs)
}

#[test]
fn test_cli_help() {
    assert_eq!(parse(&["mixed", "--help"]), CliAction::Help);
    assert_eq!(parse(&["mixed", "-h"]), CliAction::Help);
}

#[test]
fn test_cli_version() {
    assert_eq!(parse(&["mixed", "--version"]), CliAction::Version);
    assert_eq!(parse(&["mixed", "-v"]), CliAction::Version);
    assert_eq!(parse(&["mixed", "-V"]), CliAction::Version);
}

#[test]
fn test_cli_dir_flag() {
    assert_eq!(
        parse(&["mixed", "--dir", "/path/to/music"]),
        CliAction::Run(CliOptions {
            music_dir: Some("/path/to/music".to_string()),
            play_file: None,
        })
    );
}

#[test]
fn test_cli_play_flag() {
    assert_eq!(
        parse(&["mixed", "--play", "/path/to/song.mp3"]),
        CliAction::Run(CliOptions {
            music_dir: None,
            play_file: Some("/path/to/song.mp3".to_string()),
        })
    );
}

#[test]
fn cli_equals_forms_and_positional_paths() {
    assert_eq!(
        parse(&["mixed", "--dir=/music", "--play=/music/a.flac"]),
        CliAction::Run(CliOptions {
            music_dir: Some("/music".to_string()),
            play_file: Some("/music/a.flac".to_string()),
        })
    );
    // A positional argument that is not a directory is a file to play.
    let args = vec!["mixed".to_string(), "/somewhere/song.ogg".to_string()];
    assert_eq!(
        CliOptions::parse(&args, &vec![false, false]),
        CliAction::Run(CliOptions { music_dir: None, play_file: Some("/somewhere/song.ogg".to_string()) })
    );
    // A positional directory is the music directory.
    let args = vec!["mixed".to_string(), "/somewhere/music".to_string()];
    assert_eq!(
        CliOptions::parse(&args, &vec![false, true]),
        CliAction::Run(CliOptions { music_dir: Some("/somewhere/music".to_string()), play_file: None })
    );
    // An unknown flag asks for help; a dangling flag takes nothing.
    assert_eq!(parse(&["mixed", "--loud"]), CliAction::Help);
    assert_eq!(parse(&["mixed", "--dir"]), CliAction::Run(CliOptions::default()));
    assert_eq!(parse(&["mixed"]), CliAction::Run(CliOptions::default()));
}
