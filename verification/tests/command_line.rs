use stash_server::args::{Args, Error, NextArg};

fn parse(words: &[&str]) -> Result<Args, Error> {
    Args::from_cmd(words.iter().map(|w| w.to_string()).collect())
}

#[test]
fn program_name_alone() {
    let args = parse(&["server"]).unwrap();
    assert_eq!(args.program, "server");
    assert_eq!(args.config, None);
}

#[test]
fn configuration_path_defaults_to_server_cfg() {
    assert_eq!(parse(&["server"]).unwrap().config_path(), "server.cfg");
    assert_eq!(parse(&["server", "-c", "my.cfg"]).unwrap().config_path(), "my.cfg");
}

#[test]
fn short_flag_with_path() {
    let args = parse(&["server", "-c", "my.cfg"]).unwrap();
    assert_eq!(args.program, "server");
    assert_eq!(args.config, Some("my.cfg".to_string()));
}

#[test]
fn long_flag_with_path() {
    let args = parse(&["server", "--cfg", "/etc/stash.cfg"]).unwrap();
    assert_eq!(args.config, Some("/etc/stash.cfg".to_string()));
}

#[test]
fn last_path_counts() {
    let args = parse(&["server", "-c", "a", "--cfg", "b"]).unwrap();
    assert_eq!(args.config, Some("b".to_string()));
}

#[test]
fn a_flag_can_be_a_path() {
    let args = parse(&["server", "-c", "-c"]).unwrap();
    assert_eq!(args.config, Some("-c".to_string()));
}

#[test]
fn unknown_flag_is_refused() {
    assert_eq!(parse(&["server", "-x"]), Err(Error::UnknownFlag("-x".to_string())));
    assert_eq!(parse(&["server", "file"]), Err(Error::UnknownFlag("file".to_string())));
}

#[test]
fn first_unknown_flag_is_reported() {
    assert_eq!(
        parse(&["server", "-c", "a", "-y", "-z"]),
        Err(Error::UnknownFlag("-y".to_string()))
    );
}

#[test]
fn missing_path_is_refused() {
    assert_eq!(parse(&["server", "-c"]), Err(Error::TokenExpected(NextArg::Config)));
    assert_eq!(
        parse(&["server", "-c", "a", "--cfg"]),
        Err(Error::TokenExpected(NextArg::Config))
    );
}

#[test]
fn messages_of_argument_errors() {
    assert_eq!(Error::UnknownFlag("-x".to_string()).message(), "unknown flag \"-x\"");
    assert_eq!(
        Error::TokenExpected(NextArg::Config).message(),
        "didn't find an expected token: path to config file"
    );
    assert_eq!(
        Error::TokenExpected(NextArg::Flag).message(),
        "didn't find an expected token: flag"
    );
}

#[test]
fn names_of_expected_words() {
    let flag: &str = (&NextArg::Flag).into();
    let config: &str = (&NextArg::Config).into();
    assert_eq!(flag, "flag");
    assert_eq!(config, "path to config file");
}
