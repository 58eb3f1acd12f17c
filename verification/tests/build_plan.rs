use rad::actions::{failure_message, Action, CommandSpec, Failure};
use rad::build_plan::{build_and_install, decimal, make_cmd, ninja_cmd, ninja_install_cmd};
use rad::package::{parse_package, BuildSystem, Package};

fn s(x: &str) -> String {
    x.to_string()
}

fn strings(xs: &[&str]) -> Vec<String> {
    xs.iter().map(|x| x.to_string()).collect()
}

fn cmd(program: &str, args: &[&str], dir: &str) -> CommandSpec {
    CommandSpec { program: s(program), args: strings(args), dir: Some(s(dir)), env: vec![] }
}

fn run(label: &str, command: CommandSpec) -> Action {
    Action::Run { label: s(label), command }
}

fn say(x: &str) -> Action {
    Action::Say(s(x))
}

fn pkg(system: &str, extra: &str) -> Package {
    parse_package(&format!(
        "name = foo\nversion = 1.0\nsource = http://x/foo.tar.gz\nsystem = {}\nconfigure_args = --a --b\nmultilib_configure_args = --m\n{}",
        system, extra
    ))
    .unwrap()
}

#[test]
fn helper_commands() {
    assert_eq!(make_cmd("/src", &strings(&["-j4"])), cmd("make", &["-j4"], "/src"));
    assert_eq!(ninja_cmd("/b", &vec![]), cmd("ninja", &[], "/b"));
    assert_eq!(
        ninja_install_cmd("/b", "/img"),
        CommandSpec {
            program: s("ninja"),
            args: strings(&["install"]),
            dir: Some(s("/b")),
            env: vec![(s("DESTDIR"), s("/img"))],
        }
    );
}

#[test]
fn decimal_digits() {
    assert_eq!(decimal(0), "0");
    assert_eq!(decimal(7), "7");
    assert_eq!(decimal(10), "10");
    assert_eq!(decimal(1203), "1203");
    assert_eq!(decimal(usize::MAX), usize::MAX.to_string());
}

#[test]
fn autotools_plan() {
    let plan = build_and_install(&pkg("autotools", ""), "/src", "/usr", "/img", false);
    assert_eq!(
        plan,
        vec![
            Action::CreateDir(s("/img")),
            say("[rad] build system: autotools"),
            run("configure", cmd("./configure", &["--prefix=/usr", "--libdir=/usr/lib", "--a", "--b"], "/src")),
            run("make", cmd("make", &["-j4"], "/src")),
            run("make install", cmd("make", &["DESTDIR=/img", "install"], "/src")),
            say("[rad] build finished! Files are in /img"),
        ]
    );
}

#[test]
fn autotools_plan_32_bit() {
    let plan = build_and_install(&pkg("autotools", ""), "/src", "/usr", "/img32", true);
    assert_eq!(
        plan,
        vec![
            Action::CreateDir(s("/img32")),
            say("[rad] building 32-bit version of foo"),
            say("[rad] build system: autotools"),
            run(
                "configure",
                cmd(
                    "./configure",
                    &[
                        "--prefix=/usr",
                        "--libdir=/usr/lib32",
                        "--a",
                        "--b",
                        "--libdir=/usr/lib32",
                        "CFLAGS=-m32",
                        "CXXFLAGS=-m32",
                        "LDFLAGS=-m32",
                        "--host=i686-pc-linux-gnu",
                        "--m",
                    ],
                    "/src"
                )
            ),
            run("make", cmd("make", &["-j4"], "/src")),
            run("make install", cmd("make", &["DESTDIR=/img32", "install"], "/src")),
            say("[rad] build finished! Files are in /img32"),
        ]
    );
}

#[test]
fn make_plan() {
    let plan = build_and_install(&pkg("make", ""), "/src", "/usr", "/img", false);
    assert_eq!(
        plan,
        vec![
            Action::CreateDir(s("/img")),
            say("[rad] build system: make"),
            run("make", cmd("make", &["-j4", "--a", "--b"], "/src")),
            run("make install", cmd("make", &["DESTDIR=/img", "PREFIX=/usr", "install"], "/src")),
            say("[rad] build finished! Files are in /img"),
        ]
    );
}

#[test]
fn cmake_plan_32_bit() {
    let plan = build_and_install(&pkg("cmake", ""), "/src", "/usr", "/img", true);
    assert_eq!(
        plan,
        vec![
            Action::CreateDir(s("/img")),
            say("[rad] building 32-bit version of foo"),
            say("[rad] build system: cmake + ninja"),
            Action::RemoveDir(s("/src/build")),
            Action::CreateDir(s("/src/build")),
            run(
                "cmake",
                cmd(
                    "cmake",
                    &[
                        "..",
                        "-GNinja",
                        "-DCMAKE_INSTALL_PREFIX=/usr",
                        "-DCMAKE_INSTALL_LIBDIR=/usr/lib32",
                        "-DCMAKE_C_FLAGS=-m32",
                        "-DCMAKE_CXX_FLAGS=-m32",
                        "--a",
                        "--b",
                        "--libdir=/usr/lib32",
                        "CFLAGS=-m32",
                        "CXXFLAGS=-m32",
                        "LDFLAGS=-m32",
                        "--host=i686-pc-linux-gnu",
                        "--m",
                    ],
                    "/src/build"
                )
            ),
            run("ninja", cmd("ninja", &[], "/src/build")),
            run("ninja install", ninja_install_cmd("/src/build", "/img")),
            say("[rad] build finished! Files are in /img"),
        ]
    );
}

#[test]
fn cmake_plan() {
    let plan = build_and_install(&pkg("cmake", ""), "/src", "/opt", "/img", false);
    assert_eq!(
        plan[4],
        run(
            "cmake",
            cmd(
                "cmake",
                &["..", "-GNinja", "-DCMAKE_INSTALL_PREFIX=/opt", "-DCMAKE_INSTALL_LIBDIR=/opt/lib", "--a", "--b"],
                "/src/build"
            )
        )
    );
    assert_eq!(plan.len(), 8);
}

#[test]
fn meson_plan() {
    let plan = build_and_install(&pkg("meson", ""), "/src", "/usr", "/img", false);
    assert_eq!(
        plan,
        vec![
            Action::CreateDir(s("/img")),
            say("[rad] build system: meson + ninja"),
            run(
                "meson setup",
                cmd("meson", &["setup", "/src/build", "--prefix=/usr", "--libdir=/usr/lib", "--a", "--b"], "/src")
            ),
            run("ninja", cmd("ninja", &[], "/src/build")),
            run("ninja install", ninja_install_cmd("/src/build", "/img")),
            say("[rad] build finished! Files are in /img"),
        ]
    );
}

#[test]
fn cargo_plan() {
    let plan = build_and_install(&pkg("cargo", ""), "/src", "/usr", "/img", false);
    assert_eq!(
        plan,
        vec![
            Action::CreateDir(s("/img")),
            say("[rad] build system: cargo"),
            run("cargo build", cmd("cargo", &["build", "--release"], "/src")),
            Action::CreateDir(s("/img/usr/bin")),
            Action::Copy {
                from: s("/src/target/release/foo"),
                to: s("/img/usr/bin/foo"),
                failure: s("copy binary failed: "),
            },
            say("[rad] build finished! Files are in /img"),
        ]
    );
}

#[test]
fn python_plan() {
    let plan = build_and_install(&pkg("python", ""), "/src", "/usr", "/img", false);
    assert_eq!(
        plan,
        vec![
            Action::CreateDir(s("/img")),
            say("[rad] build system: python (pip)"),
            run("pip install", cmd("pip", &["install", "--prefix", "/usr", "--root", "/img", "."], "/src")),
            say("[rad] build finished! Files are in /img"),
        ]
    );
}

#[test]
fn manual_plan() {
    let p = pkg("manual", "build_commands = \"./b.sh && make\"\ninstall_command = make install");
    let plan = build_and_install(&p, "/src", "/usr", "/img", true);
    let env = |extra: bool| {
        let mut e = vec![];
        if extra {
            e.push((s("DESTDIR"), s("/img")));
        }
        e.push((s("PREFIX"), s("/usr")));
        e.push((s("LIBDIR"), s("/usr/lib32")));
        e.push((s("IS_M32"), s("1")));
        e
    };
    assert_eq!(
        plan,
        vec![
            Action::CreateDir(s("/img")),
            say("[rad] building 32-bit version of foo"),
            say("[rad] build system: manual"),
            say("[rad] build step 1/1: ./b.sh && make"),
            Action::Step {
                command: CommandSpec {
                    program: s("sh"),
                    args: strings(&["-c", "./b.sh && make"]),
                    dir: Some(s("/src")),
                    env: env(false),
                },
                start_failure: s("build step failed to start: "),
                failure: s("build step failed: ./b.sh && make"),
            },
            say("[rad] install step: make install"),
            Action::Step {
                command: CommandSpec {
                    program: s("sh"),
                    args: strings(&["-c", "make install"]),
                    dir: Some(s("/src")),
                    env: env(true),
                },
                start_failure: s("install step failed to start: "),
                failure: s("install step failed: make install"),
            },
            say("[rad] build finished! Files are in /img"),
        ]
    );
}

#[test]
fn manual_plan_numbers_every_step() {
    let mut p = pkg("manual", "build_commands = a\ninstall_command = i");
    p.build_system = BuildSystem::Manual {
        build_commands: strings(&["one", "two", "three"]),
        install_command: s("i"),
    };
    let plan = build_and_install(&p, "/src", "/usr", "/img", false);
    assert_eq!(plan[2], say("[rad] build step 1/3: one"));
    assert_eq!(plan[4], say("[rad] build step 2/3: two"));
    assert_eq!(plan[6], say("[rad] build step 3/3: three"));
    match &plan[7] {
        Action::Step { command, .. } => {
            assert_eq!(command.env[2], (s("IS_M32"), s("0")));
            assert_eq!(command.env[1], (s("LIBDIR"), s("/usr/lib")));
        }
        other => panic!("unexpected {:?}", other),
    }
}

#[test]
fn failure_messages() {
    let run = Action::Run { label: s("make install"), command: make_cmd("/src", &vec![]) };
    assert_eq!(
        failure_message(&run, &Failure::Start(s("No such file"))),
        Some(s("make install failed to start: No such file"))
    );
    assert_eq!(
        failure_message(&run, &Failure::Status(s("exit status: 2"))),
        Some(s("make install exited with status: exit status: 2"))
    );
    let step = Action::Step {
        command: make_cmd("/src", &vec![]),
        start_failure: s("build step failed to start: "),
        failure: s("build step failed: make"),
    };
    assert_eq!(
        failure_message(&step, &Failure::Start(s("denied"))),
        Some(s("build step failed to start: denied"))
    );
    assert_eq!(
        failure_message(&step, &Failure::Status(s("exit status: 1"))),
        Some(s("build step failed: make"))
    );
    let copy = Action::Copy { from: s("a"), to: s("b"), failure: s("copy binary failed: ") };
    assert_eq!(failure_message(&copy, &Failure::Start(s("gone"))), Some(s("copy binary failed: gone")));
    let dir = Action::MakeDir { path: s("/w"), failure: s("cannot create build dir: ") };
    assert_eq!(failure_message(&dir, &Failure::Start(s("full"))), Some(s("cannot create build dir: full")));
    assert_eq!(failure_message(&Action::Say(s("hi")), &Failure::Start(s("x"))), None);
}
