use rad::cli::{parse_args, Command, PREFIX, VERSION};

fn args(xs: &[&str]) -> Vec<String> {
    xs.iter().map(|x| x.to_string()).collect()
}

#[test]
fn constants() {
    assert_eq!(VERSION, "0.2.1");
    assert_eq!(PREFIX, "/usr");
}

#[test]
fn no_argument() {
    assert_eq!(parse_args(&args(&[])), Command::NoArgument);
    assert_eq!(parse_args(&args(&["rad"])), Command::NoArgument);
}

#[test]
fn simple_commands_short_and_long() {
    for (a, b, c) in [
        ("-h", "--help", Command::Help),
        ("-I", "--info", Command::Info),
        ("-V", "--version", Command::Version),
        ("-L", "--list", Command::List),
    ] {
        assert_eq!(parse_args(&args(&["rad", a])), c);
        assert_eq!(parse_args(&args(&["rad", b, "extra"])), c);
    }
    assert_eq!(parse_args(&args(&["rad", "--hello"])), Command::Hello);
}

#[test]
fn package_commands() {
    assert_eq!(parse_args(&args(&["rad", "-i", "zlib"])), Command::Install("zlib".to_string()));
    assert_eq!(parse_args(&args(&["rad", "--install", "zlib", "x"])), Command::Install("zlib".to_string()));
    assert_eq!(parse_args(&args(&["rad", "-r", "zlib"])), Command::Remove("zlib".to_string()));
    assert_eq!(parse_args(&args(&["rad", "--remove", "zlib"])), Command::Remove("zlib".to_string()));
    assert_eq!(parse_args(&args(&["rad", "-P", "zlib"])), Command::PkgInfo("zlib".to_string()));
    assert_eq!(parse_args(&args(&["rad", "--pkg-info", "zlib"])), Command::PkgInfo("zlib".to_string()));
}

#[test]
fn package_commands_need_a_name() {
    for a in ["-i", "--install", "-r", "--remove", "-P", "--pkg-info"] {
        assert_eq!(parse_args(&args(&["rad", a])), Command::MissingPackage);
    }
}

#[test]
fn unknown_arguments() {
    assert_eq!(parse_args(&args(&["rad", "-x"])), Command::Unknown("-x".to_string()));
    assert_eq!(parse_args(&args(&["rad", "--HELP"])), Command::Unknown("--HELP".to_string()));
    assert_eq!(parse_args(&args(&["rad", ""])), Command::Unknown("".to_string()));
    assert_eq!(parse_args(&args(&["rad", "-hello"])), Command::Unknown("-hello".to_string()));
}
