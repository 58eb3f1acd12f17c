use std::collections::{HashMap, HashSet};

use rad::actions::Action;
use rad::fetch::SourceDir;
use rad::install::{Installer, Reply, Request};

/// A pretend system: which paths exist, what files hold, which step fails.
struct World {
    existing: HashSet<String>,
    files: HashMap<String, String>,
    fail_run_label: Option<String>,
    fail_merge: bool,
    fail_register: bool,
    multilib: bool,
    multilib_after_register: Option<String>,
    log: Vec<String>,
}

impl World {
    fn new() -> World {
        World {
            existing: HashSet::new(),
            files: HashMap::new(),
            fail_run_label: None,
            fail_merge: false,
            fail_register: false,
            multilib: false,
            multilib_after_register: None,
            log: vec![],
        }
    }

    fn local(&mut self, name: &str, content: &str) {
        let path = format!("{}.toml", name);
        self.existing.insert(path.clone());
        self.files.insert(path, content.to_string());
    }

    fn perform(&mut self, actions: &[Action]) -> Result<(), String> {
        for a in actions {
            match a {
                Action::Say(x) => self.log.push(format!("say {}", x)),
                Action::Complain { label, message } => {
                    self.log.push(format!("complain {} {}", label, message))
                }
                Action::Warn(x) => self.log.push(format!("warn {}", x)),
                Action::Run { label, .. } => {
                    self.log.push(format!("run {}", label));
                    if self.fail_run_label.as_deref() == Some(label.as_str()) {
                        return Err(format!("{} exited with status: 1", label));
                    }
                }
                other => self.log.push(format!("{:?}", other)),
            }
        }
        Ok(())
    }

    fn install(&mut self, name: &str, multilib: bool) -> Vec<String> {
        self.multilib = multilib;
        let (mut m, mut req) = Installer::new(name, "/usr");
        let mut n = 0;
        loop {
            n += 1;
            assert!(n < 1000, "machine does not end");
            let reply = match &req {
                Request::Done => break,
                Request::Perform(actions) => Reply::Performed(self.perform(actions)),
                Request::Exists(p) => Reply::Exists(self.existing.contains(p)),
                Request::Config => {
                    self.log.push("config".to_string());
                    Reply::Config { repo_url: "https://repo".to_string(), multilib: self.multilib }
                }
                Request::Read(p) => Reply::Content(
                    self.files.get(p).cloned().ok_or_else(|| "No such file".to_string()),
                ),
                Request::FindSourceDir(SourceDir::At(d)) => Reply::Found(Ok(d.clone())),
                Request::FindSourceDir(SourceDir::Search { candidates, .. }) => {
                    Reply::Found(Ok(candidates[0].clone()))
                }
                Request::Register { name, dest_dir } => {
                    self.log.push(format!("register {} {}", name, dest_dir));
                    if self.fail_register {
                        Reply::Performed(Err("disk full".to_string()))
                    } else {
                        self.existing.insert(format!("/var/lib/rad/installed/{}", name));
                        if self.multilib_after_register.as_deref() == Some(name.as_str()) {
                            self.multilib = true;
                        }
                        Reply::Performed(Ok(()))
                    }
                }
                Request::Merge(d) => {
                    self.log.push(format!("merge {}", d));
                    if self.fail_merge {
                        Reply::Performed(Err("read-only".to_string()))
                    } else {
                        Reply::Performed(Ok(()))
                    }
                }
            };
            req = m.step(reply);
        }
        assert!(m.is_finished());
        std::mem::take(&mut self.log)
    }
}

fn pkg(name: &str, deps: &str) -> String {
    format!("name = {}\nversion = 1\nsource = https://h/{}-1.tar.gz\nsystem = make\ndepends = \"{}\"\nmultilib_support = true", name, name, deps)
}

#[test]
fn already_installed_package_is_skipped() {
    let mut w = World::new();
    w.existing.insert("/var/lib/rad/installed/zlib".to_string());
    let log = w.install("zlib", false);
    assert_eq!(log, vec!["say [rad] zlib is already installed, skipping.".to_string()]);
}

#[test]
fn simple_install_in_order() {
    let mut w = World::new();
    w.local("zlib", &pkg("zlib", ""));
    let log = w.install("zlib", false);
    let expected_prefix = vec![
        "config",
        "say [rad] using local zlib.toml",
        "say [rad] package: zlib 1",
        "say [rad] info: ",
        "say [rad] source: https://h/zlib-1.tar.gz",
    ];
    assert_eq!(&log[..5], &expected_prefix.iter().map(|x| x.to_string()).collect::<Vec<_>>()[..]);
    assert!(log.contains(&"register zlib /tmp/rad/image/zlib".to_string()));
    assert!(log.contains(&"merge /tmp/rad/image/zlib".to_string()));
    assert!(log.contains(&"say [rad] indexing files for zlib...".to_string()));
    assert_eq!(
        log.last().unwrap(),
        "say [rad] installation of 'zlib' finished successfully."
    );
    assert!(w.existing.contains("/var/lib/rad/installed/zlib"));
}

#[test]
fn dependencies_are_installed_first() {
    let mut w = World::new();
    w.local("app", &pkg("app", "lib, tool"));
    w.local("lib", &pkg("lib", ""));
    w.local("tool", &pkg("tool", "lib"));
    let log = w.install("app", false);
    let done: Vec<&String> = log.iter().filter(|l| l.contains("finished successfully")).collect();
    assert_eq!(
        done,
        vec![
            "say [rad] installation of 'lib' finished successfully.",
            "say [rad] installation of 'tool' finished successfully.",
            "say [rad] installation of 'app' finished successfully.",
        ]
    );
    assert!(log.contains(&"say [rad] resolving dependency: lib".to_string()));
    assert!(log.contains(&"say [rad] resolving dependency: tool".to_string()));
    assert_eq!(log.iter().filter(|l| l.starts_with("say [rad] resolving dependency: lib")).count(), 1);
    let pos = |line: &str| log.iter().position(|l| l == line).unwrap();
    assert!(
        pos("say [rad] installation of 'tool' finished successfully.")
            < pos("say [rad] package: app 1")
    );
    assert!(
        pos("say [rad] installation of 'lib' finished successfully.")
            < pos("say [rad] package: tool 1")
    );
}

#[test]
fn circular_dependency_is_reported_and_install_goes_on() {
    let mut w = World::new();
    w.local("a", &pkg("a", "b"));
    w.local("b", &pkg("b", "a"));
    let log = w.install("a", false);
    assert!(log.contains(&"complain error: circular dependency detected: a!".to_string()));
    let done: Vec<&String> = log.iter().filter(|l| l.contains("finished successfully")).collect();
    assert_eq!(
        done,
        vec![
            "say [rad] installation of 'b' finished successfully.",
            "say [rad] installation of 'a' finished successfully.",
        ]
    );
}

#[test]
fn missing_package_file_is_an_error() {
    let mut w = World::new();
    let log = w.install("ghost", false);
    assert!(log.contains(&"say [rad] fetching toml from https://repo/ghost.toml repository...".to_string()));
    assert_eq!(
        log.last().unwrap(),
        "complain parse error: cannot read /tmp/rad/tomls/ghost.toml: No such file"
    );
}

#[test]
fn unparsable_package_file_is_an_error() {
    let mut w = World::new();
    w.local("bad", "name = bad\nsource = x\nsystem = ant");
    let log = w.install("bad", false);
    assert_eq!(log.last().unwrap(), "complain parse error: unknown build system: 'ant'");
}

#[test]
fn build_failure_is_reported() {
    let mut w = World::new();
    w.local("zlib", &pkg("zlib", ""));
    w.fail_run_label = Some("make install".to_string());
    let log = w.install("zlib", false);
    assert_eq!(log.last().unwrap(), "complain build error: make install exited with status: 1");
    assert!(!log.iter().any(|l| l.starts_with("register")));
}

#[test]
fn registration_failure_is_only_a_warning() {
    let mut w = World::new();
    w.local("zlib", &pkg("zlib", ""));
    w.fail_register = true;
    let log = w.install("zlib", false);
    assert!(log.contains(&"warn [rad] registration error: disk full".to_string()));
    assert_eq!(log.last().unwrap(), "say [rad] installation of 'zlib' finished successfully.");
}

#[test]
fn merge_failure_is_reported() {
    let mut w = World::new();
    w.local("zlib", &pkg("zlib", ""));
    w.fail_merge = true;
    let log = w.install("zlib", false);
    assert_eq!(log.last().unwrap(), "complain merge error: merge failed: read-only");
}

#[test]
fn multilib_builds_a_second_flavour() {
    let mut w = World::new();
    w.local("zlib", &pkg("zlib", ""));
    let log = w.install("zlib", true);
    assert!(log.contains(&"say [rad] multilib enabled, building 32-bit flavor of zlib...".to_string()));
    assert!(log.contains(&"say [rad] indexing 32-bit files for zlib-m32...".to_string()));
    assert!(log.contains(&"register zlib-m32 /tmp/rad/image/zlib-m32".to_string()));
    assert!(log.contains(&"merge /tmp/rad/image/zlib-m32".to_string()));
    assert!(w.existing.contains("/var/lib/rad/installed/zlib-m32"));
    assert_eq!(log.last().unwrap(), "say [rad] installation of 'zlib' finished successfully.");
}

#[test]
fn multilib_is_skipped_without_package_support() {
    let mut w = World::new();
    w.local("zlib", "name = zlib\nsource = s\nsystem = make");
    let log = w.install("zlib", true);
    assert!(!log.iter().any(|l| l.contains("32-bit")));
}

#[test]
fn configuration_is_read_for_each_package() {
    let mut w = World::new();
    w.local("app", &pkg("app", "a, b"));
    w.local("a", &pkg("a", ""));
    w.local("b", &pkg("b", ""));
    w.multilib_after_register = Some("a".to_string());
    let log = w.install("app", false);
    assert_eq!(log.iter().filter(|l| l.as_str() == "config").count(), 3);
    assert!(!log.iter().any(|l| l.contains("32-bit flavor of a")));
    assert!(log.contains(&"say [rad] multilib enabled, building 32-bit flavor of b...".to_string()));
    assert!(!log.iter().any(|l| l.contains("32-bit flavor of app")));
}

#[test]
fn configuration_is_not_read_for_an_installed_package() {
    let mut w = World::new();
    w.existing.insert("/var/lib/rad/installed/zlib".to_string());
    let log = w.install("zlib", false);
    assert!(!log.contains(&"config".to_string()));
}
