use rad::package::{parse_package, read_error, read_package, BuildSystem, Package};

fn s(x: &str) -> String {
    x.to_string()
}

fn strings(xs: &[&str]) -> Vec<String> {
    xs.iter().map(|x| x.to_string()).collect()
}

fn ok(content: &str) -> Package {
    match parse_package(content) {
        Ok(p) => p,
        Err(e) => panic!("refused: {}", e),
    }
}

fn err(content: &str) -> String {
    match parse_package(content) {
        Ok(p) => panic!("accepted: {:?}", p),
        Err(e) => e,
    }
}

#[test]
fn full_autotools_package() {
    let content = "# zlib\n[package]\nname = \"zlib\"\nversion = \"1.3.1\"\ndescription = \"compression library\"\nsource = \"https://zlib.net/zlib-1.3.1.tar.gz\"\nsystem = \"autotools\"\ndepends = \"glibc, make\"\nconfigure_args = \"--shared --enable-foo\"\nmultilib_support = \"true\"\nmultilib_configure_args = \"--m32-only\"\n";
    let p = ok(content);
    assert_eq!(p.name, "zlib");
    assert_eq!(p.version, "1.3.1");
    assert_eq!(p.description, "compression library");
    assert_eq!(p.source, "https://zlib.net/zlib-1.3.1.tar.gz");
    assert_eq!(p.build_system, BuildSystem::Autotools);
    assert_eq!(p.depends, strings(&["glibc", "make"]));
    assert_eq!(p.configure_args, strings(&["--shared", "--enable-foo"]));
    assert!(p.multilib_support);
    assert_eq!(p.multilib_configure_args, strings(&["--m32-only"]));
}

#[test]
fn every_known_build_system() {
    for (word, bs) in [
        ("autotools", BuildSystem::Autotools),
        ("cmake", BuildSystem::Cmake),
        ("meson", BuildSystem::Meson),
        ("cargo", BuildSystem::Cargo),
        ("python", BuildSystem::Python),
        ("make", BuildSystem::Make),
    ] {
        let p = ok(&format!("name = a\nsource = b\nsystem = {}", word));
        assert_eq!(p.build_system, bs);
    }
}

#[test]
fn values_without_quotes_and_defaults() {
    let p = ok("name=x\nsource=y\nsystem=make");
    assert_eq!(p.name, "x");
    assert_eq!(p.version, "");
    assert_eq!(p.description, "");
    assert!(p.depends.is_empty());
    assert!(p.configure_args.is_empty());
    assert!(!p.multilib_support);
    assert!(p.multilib_configure_args.is_empty());
}

#[test]
fn only_an_enclosing_pair_of_quotes_is_removed() {
    let p = ok("name = \"\"x\"\"\nsource = \"\nsystem = make\ndescription = \"half");
    assert_eq!(p.name, "\"x\"");
    assert_eq!(p.source, "\"");
    assert_eq!(p.description, "\"half");
}

#[test]
fn value_is_split_at_the_first_equals_sign() {
    let p = ok("name = a\nsource = http://h/?x=1&y=2\nsystem = make\nconfigure_args = CFLAGS=-O2 X=1");
    assert_eq!(p.source, "http://h/?x=1&y=2");
    assert_eq!(p.configure_args, strings(&["CFLAGS=-O2", "X=1"]));
}

#[test]
fn last_assignment_wins() {
    let p = ok("name = first\nsource = s\nsystem = cmake\nname = second\nsystem = meson");
    assert_eq!(p.name, "second");
    assert_eq!(p.build_system, BuildSystem::Meson);
}

#[test]
fn comments_sections_and_stray_lines_are_ignored() {
    let base = "name = a\nsource = b\nsystem = make";
    let with_noise = format!(
        "{}\n# name = c\n[section]\n   \njust words\n\t# indented comment",
        base
    );
    assert_eq!(ok(base), ok(&with_noise));
    assert_eq!(err("name = a\nsystem = make"), err("name = a\nsystem = make\n# source = b"));
}

#[test]
fn keys_and_values_are_trimmed_and_crlf_is_accepted() {
    let p = ok("  name\t=\t pkg \r\n source =src\r\nsystem= python \r\n");
    assert_eq!(p.name, "pkg");
    assert_eq!(p.source, "src");
    assert_eq!(p.build_system, BuildSystem::Python);
}

#[test]
fn unknown_keys_are_ignored_and_keys_are_case_sensitive() {
    let p = ok("name = a\nsource = b\nsystem = make\nNAME = zzz\nhomepage = x");
    assert_eq!(p.name, "a");
}

#[test]
fn depends_are_trimmed_and_empty_entries_dropped() {
    let p = ok("name=a\nsource=b\nsystem=make\ndepends = \" x ,, y,  ,z \"");
    assert_eq!(p.depends, strings(&["x", "y", "z"]));
}

#[test]
fn configure_args_split_on_any_whitespace() {
    let p = ok("name=a\nsource=b\nsystem=make\nconfigure_args = \"  --a\t--b   --c \"");
    assert_eq!(p.configure_args, strings(&["--a", "--b", "--c"]));
}

#[test]
fn multilib_support_only_when_exactly_true() {
    assert!(!ok("name=a\nsource=b\nsystem=make\nmultilib_support = yes").multilib_support);
    assert!(!ok("name=a\nsource=b\nsystem=make\nmultilib_support = TRUE").multilib_support);
    assert!(ok("name=a\nsource=b\nsystem=make\nmultilib_support = true").multilib_support);
    assert!(!ok("name=a\nsource=b\nsystem=make\nmultilib_support = true\nmultilib_support = false")
        .multilib_support);
}

#[test]
fn manual_build_system() {
    let p = ok("name=a\nsource=b\nsystem=manual\nbuild_commands = \"./build.sh && make\"\ninstall_command = make install");
    assert_eq!(
        p.build_system,
        BuildSystem::Manual {
            build_commands: strings(&["./build.sh && make"]),
            install_command: s("make install"),
        }
    );
}

#[test]
fn manual_with_empty_build_command_is_accepted() {
    let p = ok("name=a\nsource=b\nsystem=manual\nbuild_commands = \"\"\ninstall_command = i");
    assert_eq!(
        p.build_system,
        BuildSystem::Manual { build_commands: strings(&[""]), install_command: s("i") }
    );
}

#[test]
fn manual_without_build_commands_is_refused() {
    assert_eq!(
        err("name=a\nsource=b\nsystem=manual\ninstall_command = i"),
        "manual build system requires 'build_commands' field"
    );
}

#[test]
fn manual_without_install_command_is_refused() {
    assert_eq!(
        err("name=a\nsource=b\nsystem=manual\nbuild_commands = x"),
        "manual build system requires 'install_command' field"
    );
    assert_eq!(
        err("name=a\nsource=b\nsystem=manual\nbuild_commands = x\ninstall_command = \"\""),
        "manual build system requires 'install_command' field"
    );
}

#[test]
fn unknown_build_system_is_refused() {
    assert_eq!(err("name=a\nsource=b\nsystem=scons"), "unknown build system: 'scons'");
    assert_eq!(err("name=a\nsource=b"), "unknown build system: ''");
    assert_eq!(err("name=a\nsource=b\nsystem=Make"), "unknown build system: 'Make'");
}

#[test]
fn build_system_is_checked_before_name_and_source() {
    assert_eq!(err("system=nope"), "unknown build system: 'nope'");
    assert_eq!(
        err("system=manual"),
        "manual build system requires 'build_commands' field"
    );
}

#[test]
fn name_and_source_are_required() {
    let msg = "name and source are required fields in package";
    assert_eq!(err("source=b\nsystem=make"), msg);
    assert_eq!(err("name=a\nsystem=make"), msg);
    assert_eq!(err("name=\"\"\nsource=b\nsystem=make"), msg);
    assert_eq!(err(""), "unknown build system: ''");
}

#[test]
fn unicode_whitespace_is_trimmed() {
    let p = ok("name =\u{00a0}caf\u{e9}\u{3000}\nsource = b\nsystem = make");
    assert_eq!(p.name, "caf\u{e9}");
}

#[test]
fn ignored_lines_anywhere_change_nothing() {
    let base = "name = a\nversion = 2\nsource = b\nsystem = make\ndepends = x, y";
    let lines = ["", "# version = 9", "[package]", "no equals sign", "homepage = h", "NAME = z"];
    for line in lines {
        assert_eq!(ok(&format!("{}\n{}", line, base)), ok(base));
        assert_eq!(ok(&format!("name = a\n{}\nversion = 2\nsource = b\nsystem = make\ndepends = x, y", line)), ok(base));
        assert_eq!(ok(&format!("{}\n{}", base, line)), ok(base));
    }
    let refused = "name = a\nsystem = ant";
    assert_eq!(err(&format!("name = a\nhomepage = h\nsystem = ant")), err(refused));
}

#[test]
fn reading_a_package_file() {
    assert_eq!(read_error("/tmp/x.toml", "No such file"), "cannot read /tmp/x.toml: No such file");
    assert_eq!(
        read_package("/tmp/x.toml", Err(s("No such file"))),
        Err(s("cannot read /tmp/x.toml: No such file"))
    );
    assert_eq!(
        read_package("a.toml", Ok(s("name = a\nsource = b\nsystem = make"))),
        Ok(ok("name = a\nsource = b\nsystem = make"))
    );
    assert_eq!(read_package("a.toml", Ok(s("name = a\nsystem = make"))), Err(s("name and source are required fields in package")));
}
