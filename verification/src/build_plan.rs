//! How a package is built and staged: the commands that each build system
//! runs, planned as a list of actions that the caller carries out in order.
use vstd::prelude::*;
use crate::package::{BuildSystem, BuildSystemView, Package, PackageView};
use crate::actions::{
    action_views, env_views, lit, no_args, plain, plain_cmd, push_action, push_all, push_string,
    strings1, strings2, Action, ActionView, CommandSpec, CommandView,
};
use crate::text::{concat2, concat3, concat4, copy_string, copy_strings, views};

verus! {

/// `make` with the given arguments, run in `dir`.
pub open spec fn spec_make_cmd(dir: Seq<char>, args: Seq<Seq<char>>) -> CommandView {
    plain("make"@, args, dir)
}

/// `ninja` with the given arguments, run in `dir`.
pub open spec fn spec_ninja_cmd(dir: Seq<char>, args: Seq<Seq<char>>) -> CommandView {
    plain("ninja"@, args, dir)
}

/// `ninja install` run in `build_dir`, staging into `dest_dir` through `DESTDIR`.
pub open spec fn spec_ninja_install_cmd(build_dir: Seq<char>, dest_dir: Seq<char>) -> CommandView {
    CommandView {
        program: "ninja"@,
        args: seq!["install"@],
        dir: Some(build_dir),
        env: seq![("DESTDIR"@, dest_dir)],
    }
}

/// The library directory: `lib`, or `lib32` for the 32-bit flavour, under the prefix.
pub open spec fn spec_libdir(prefix: Seq<char>, is_m32: bool) -> Seq<char> {
    if is_m32 {
        prefix + "/lib32"@
    } else {
        prefix + "/lib"@
    }
}

/// The flags that every 32-bit build passes on to the package's configuration.
pub open spec fn m32_flags() -> Seq<Seq<char>> {
    seq![
        "--libdir=/usr/lib32"@,
        "CFLAGS=-m32"@,
        "CXXFLAGS=-m32"@,
        "LDFLAGS=-m32"@,
        "--host=i686-pc-linux-gnu"@,
    ]
}

/// The configuration arguments of a build: the package's own, and for the
/// 32-bit flavour the 32-bit flags and the package's multilib arguments.
pub open spec fn spec_configure_args(pkg: PackageView, is_m32: bool) -> Seq<Seq<char>> {
    if is_m32 {
        pkg.configure_args + m32_flags() + pkg.multilib_configure_args
    } else {
        pkg.configure_args
    }
}

/// The environment of a manual build step.
pub open spec fn manual_env(prefix: Seq<char>, libdir: Seq<char>, is_m32: bool) -> Seq<
    (Seq<char>, Seq<char>),
> {
    seq![
        ("PREFIX"@, prefix),
        ("LIBDIR"@, libdir),
        ("IS_M32"@, if is_m32 { "1"@ } else { "0"@ }),
    ]
}

/// The decimal digits of `n`.
pub open spec fn spec_decimal(n: nat) -> Seq<char>
    decreases n,
{
    if n < 10 {
        seq![digit_char(n)]
    } else {
        spec_decimal(n / 10) + seq![digit_char(n % 10)]
    }
}

/// The character of a digit.
pub open spec fn digit_char(d: nat) -> char {
    if d == 0 {
        '0'
    } else if d == 1 {
        '1'
    } else if d == 2 {
        '2'
    } else if d == 3 {
        '3'
    } else if d == 4 {
        '4'
    } else if d == 5 {
        '5'
    } else if d == 6 {
        '6'
    } else if d == 7 {
        '7'
    } else if d == 8 {
        '8'
    } else {
        '9'
    }
}

/// The build steps of a manual build, two actions per command: a notice
/// `[rad] build step i/n: cmd` and the shell command itself.
pub open spec fn manual_build_actions(
    cmds: Seq<Seq<char>>,
    total: nat,
    src_dir: Seq<char>,
    prefix: Seq<char>,
    libdir: Seq<char>,
    is_m32: bool,
) -> Seq<ActionView>
    decreases cmds.len(),
{
    if cmds.len() == 0 {
        Seq::empty()
    } else {
        let c = cmds.last();
        manual_build_actions(cmds.drop_last(), total, src_dir, prefix, libdir, is_m32) + seq![
            ActionView::Say(
                "[rad] build step "@ + spec_decimal(cmds.len()) + "/"@ + spec_decimal(total)
                    + ": "@ + c,
            ),
            ActionView::Step {
                command: CommandView {
                    program: "sh"@,
                    args: seq!["-c"@, c],
                    dir: Some(src_dir),
                    env: manual_env(prefix, libdir, is_m32),
                },
                start_failure: "build step failed to start: "@,
                failure: "build step failed: "@ + c,
            },
        ]
    }
}

/// The actions particular to the package's build system.
pub open spec fn system_actions(
    pkg: PackageView,
    src_dir: Seq<char>,
    prefix: Seq<char>,
    dest_dir: Seq<char>,
    is_m32: bool,
) -> Seq<ActionView> {
    let libdir = spec_libdir(prefix, is_m32);
    let cargs = spec_configure_args(pkg, is_m32);
    let build_dir = src_dir + "/build"@;
    match pkg.build_system {
        BuildSystemView::Autotools => seq![
            ActionView::Say("[rad] build system: autotools"@),
            ActionView::Run {
                label: "configure"@,
                command: plain(
                    "./configure"@,
                    seq!["--prefix="@ + prefix, "--libdir="@ + libdir] + cargs,
                    src_dir,
                ),
            },
            ActionView::Run { label: "make"@, command: spec_make_cmd(src_dir, seq!["-j4"@]) },
            ActionView::Run {
                label: "make install"@,
                command: spec_make_cmd(src_dir, seq!["DESTDIR="@ + dest_dir, "install"@]),
            },
        ],
        BuildSystemView::Make => seq![
            ActionView::Say("[rad] build system: make"@),
            ActionView::Run { label: "make"@, command: spec_make_cmd(src_dir, seq!["-j4"@] + cargs) },
            ActionView::Run {
                label: "make install"@,
                command: spec_make_cmd(
                    src_dir,
                    seq!["DESTDIR="@ + dest_dir, "PREFIX="@ + prefix, "install"@],
                ),
            },
        ],
        BuildSystemView::Cmake => seq![
            ActionView::Say("[rad] build system: cmake + ninja"@),
            ActionView::RemoveDir(build_dir),
            ActionView::CreateDir(build_dir),
            ActionView::Run {
                label: "cmake"@,
                command: plain(
                    "cmake"@,
                    seq![
                        ".."@,
                        "-GNinja"@,
                        "-DCMAKE_INSTALL_PREFIX="@ + prefix,
                        "-DCMAKE_INSTALL_LIBDIR="@ + libdir,
                    ] + (if is_m32 {
                        seq!["-DCMAKE_C_FLAGS=-m32"@, "-DCMAKE_CXX_FLAGS=-m32"@]
                    } else {
                        Seq::empty()
                    }) + cargs,
                    build_dir,
                ),
            },
            ActionView::Run { label: "ninja"@, command: spec_ninja_cmd(build_dir, Seq::empty()) },
            ActionView::Run {
                label: "ninja install"@,
                command: spec_ninja_install_cmd(build_dir, dest_dir),
            },
        ],
        BuildSystemView::Meson => seq![
            ActionView::Say("[rad] build system: meson + ninja"@),
            ActionView::Run {
                label: "meson setup"@,
                command: plain(
                    "meson"@,
                    seq!["setup"@, build_dir, "--prefix="@ + prefix, "--libdir="@ + libdir] + cargs,
                    src_dir,
                ),
            },
            ActionView::Run { label: "ninja"@, command: spec_ninja_cmd(build_dir, Seq::empty()) },
            ActionView::Run {
                label: "ninja install"@,
                command: spec_ninja_install_cmd(build_dir, dest_dir),
            },
        ],
        BuildSystemView::Cargo => seq![
            ActionView::Say("[rad] build system: cargo"@),
            ActionView::Run {
                label: "cargo build"@,
                command: plain("cargo"@, seq!["build"@, "--release"@], src_dir),
            },
            ActionView::CreateDir(dest_dir + prefix + "/bin"@),
            ActionView::Copy {
                from: src_dir + "/target/release/"@ + pkg.name,
                to: dest_dir + prefix + "/bin"@ + "/"@ + pkg.name,
                failure: "copy binary failed: "@,
            },
        ],
        BuildSystemView::Python => seq![
            ActionView::Say("[rad] build system: python (pip)"@),
            ActionView::Run {
                label: "pip install"@,
                command: plain(
                    "pip"@,
                    seq!["install"@, "--prefix"@, prefix, "--root"@, dest_dir, "."@],
                    src_dir,
                ),
            },
        ],
        BuildSystemView::Manual { build_commands, install_command } => seq![
            ActionView::Say("[rad] build system: manual"@),
        ] + manual_build_actions(
            build_commands,
            build_commands.len(),
            src_dir,
            prefix,
            libdir,
            is_m32,
        ) + seq![
            ActionView::Say("[rad] install step: "@ + install_command),
            ActionView::Step {
                command: CommandView {
                    program: "sh"@,
                    args: seq!["-c"@, install_command],
                    dir: Some(src_dir),
                    env: seq![("DESTDIR"@, dest_dir)] + manual_env(prefix, libdir, is_m32),
                },
                start_failure: "install step failed to start: "@,
                failure: "install step failed: "@ + install_command,
            },
        ],
    }
}

/// The whole plan of a build: create the staging directory, announce a 32-bit
/// build, the steps of the build system, and the closing notice.
pub open spec fn spec_build_plan(
    pkg: PackageView,
    src_dir: Seq<char>,
    prefix: Seq<char>,
    dest_dir: Seq<char>,
    is_m32: bool,
) -> Seq<ActionView> {
    seq![ActionView::CreateDir(dest_dir)] + (if is_m32 {
        seq![ActionView::Say("[rad] building 32-bit version of "@ + pkg.name)]
    } else {
        Seq::empty()
    }) + system_actions(pkg, src_dir, prefix, dest_dir, is_m32) + seq![
        ActionView::Say("[rad] build finished! Files are in "@ + dest_dir),
    ]
}

/// The decimal digits of `n`.
pub fn decimal(n: usize) -> (r: String)
    ensures
        r@ == spec_decimal(n as nat),
    decreases n,
{
    if n < 10 {
        String::from_str(digit_text(n))
    } else {
        let mut r = decimal(n / 10);
        r.append(digit_text(n % 10));
        r
    }
}

fn digit_text(d: usize) -> (r: &'static str)
    requires
        d < 10,
    ensures
        r@ == seq![digit_char(d as nat)],
{
    proof {
        reveal_strlit("0");
        reveal_strlit("1");
        reveal_strlit("2");
        reveal_strlit("3");
        reveal_strlit("4");
        reveal_strlit("5");
        reveal_strlit("6");
        reveal_strlit("7");
        reveal_strlit("8");
        reveal_strlit("9");
    }
    if d == 0 {
        "0"
    } else if d == 1 {
        "1"
    } else if d == 2 {
        "2"
    } else if d == 3 {
        "3"
    } else if d == 4 {
        "4"
    } else if d == 5 {
        "5"
    } else if d == 6 {
        "6"
    } else if d == 7 {
        "7"
    } else if d == 8 {
        "8"
    } else {
        "9"
    }
}

/// `make` with the given arguments, run in `dir`.
pub fn make_cmd(dir: &str, args: &Vec<String>) -> (r: CommandSpec)
    ensures
        r@ == spec_make_cmd(dir@, views(args@)),
{
    plain_cmd("make", copy_strings(args), dir)
}

/// `ninja` with the given arguments, run in `dir`.
pub fn ninja_cmd(dir: &str, args: &Vec<String>) -> (r: CommandSpec)
    ensures
        r@ == spec_ninja_cmd(dir@, views(args@)),
{
    plain_cmd("ninja", copy_strings(args), dir)
}

/// `ninja install` run in `build_dir`, with `DESTDIR` set to `dest_dir`.
pub fn ninja_install_cmd(build_dir: &str, dest_dir: &str) -> (r: CommandSpec)
    ensures
        r@ == spec_ninja_install_cmd(build_dir@, dest_dir@),
{
    let mut args: Vec<String> = Vec::new();
    push_string(&mut args, lit("install"));
    let mut env: Vec<(String, String)> = Vec::new();
    env.push((lit("DESTDIR"), lit(dest_dir)));
    let r = CommandSpec { program: lit("ninja"), args, dir: Some(lit(build_dir)), env };
    assert(views(r.args@) =~= seq!["install"@]);
    assert(env_views(r.env@) =~= seq![("DESTDIR"@, dest_dir@)]);
    r
}

/// The configuration arguments of a build of `pkg`.
fn configure_args(pkg: &Package, is_m32: bool) -> (r: Vec<String>)
    ensures
        views(r@) == spec_configure_args(pkg@, is_m32),
{
    let mut r = copy_strings(&pkg.configure_args);
    if is_m32 {
        let mut flags: Vec<String> = Vec::new();
        push_string(&mut flags, lit("--libdir=/usr/lib32"));
        push_string(&mut flags, lit("CFLAGS=-m32"));
        push_string(&mut flags, lit("CXXFLAGS=-m32"));
        push_string(&mut flags, lit("LDFLAGS=-m32"));
        push_string(&mut flags, lit("--host=i686-pc-linux-gnu"));
        assert(views(flags@) =~= m32_flags());
        push_all(&mut r, &flags);
        push_all(&mut r, &pkg.multilib_configure_args);
    }
    r
}

fn manual_env_vec(prefix: &str, libdir: &str, is_m32: bool) -> (r: Vec<(String, String)>)
    ensures
        env_views(r@) == manual_env(prefix@, libdir@, is_m32),
{
    let mut env: Vec<(String, String)> = Vec::new();
    env.push((lit("PREFIX"), lit(prefix)));
    env.push((lit("LIBDIR"), lit(libdir)));
    env.push((lit("IS_M32"), lit(if is_m32 { "1" } else { "0" })));
    assert(env_views(env@) =~= manual_env(prefix@, libdir@, is_m32));
    env
}

/// The actions of a manual build.
fn manual_actions(
    plan: &mut Vec<Action>,
    build_commands: &Vec<String>,
    install_command: &String,
    src_dir: &str,
    prefix: &str,
    dest_dir: &str,
    libdir: &str,
    is_m32: bool,
)
    ensures
        action_views(final(plan)@) == action_views(old(plan)@) + (seq![
            ActionView::Say("[rad] build system: manual"@),
        ] + manual_build_actions(
            views(build_commands@),
            build_commands@.len(),
            src_dir@,
            prefix@,
            libdir@,
            is_m32,
        ) + seq![
            ActionView::Say("[rad] install step: "@ + install_command@),
            ActionView::Step {
                command: CommandView {
                    program: "sh"@,
                    args: seq!["-c"@, install_command@],
                    dir: Some(src_dir@),
                    env: seq![("DESTDIR"@, dest_dir@)] + manual_env(prefix@, libdir@, is_m32),
                },
                start_failure: "install step failed to start: "@,
                failure: "install step failed: "@ + install_command@,
            },
        ]),
{
    let ghost start = action_views(plan@);
    let ghost cmds = views(build_commands@);
    let n = build_commands.len();
    push_action(plan, Action::Say(lit("[rad] build system: manual")));
    let mut i: usize = 0;
    while i < n
        invariant
            n == build_commands@.len(),
            cmds == views(build_commands@),
            i <= n,
            action_views(plan@) == start + seq![ActionView::Say("[rad] build system: manual"@)]
                + manual_build_actions(cmds.take(i as int), n as nat, src_dir@, prefix@, libdir@, is_m32),
        decreases n - i,
    {
        let c = &build_commands[i];
        let step = decimal(i + 1);
        let total = decimal(n);
        let mut say = concat4("[rad] build step ", step.as_str(), "/", total.as_str());
        say.append(": ");
        say.append(c.as_str());
        push_action(plan, Action::Say(say));
        let command = CommandSpec {
            program: lit("sh"),
            args: strings2(lit("-c"), copy_string(c)),
            dir: Some(lit(src_dir)),
            env: manual_env_vec(prefix, libdir, is_m32),
        };
        push_action(
            plan,
            Action::Step {
                command,
                start_failure: lit("build step failed to start: "),
                failure: concat2("build step failed: ", c.as_str()),
            },
        );
        assert(cmds.take(i + 1).drop_last() =~= cmds.take(i as int));
        assert(cmds.take(i + 1).last() == c@);
        i = i + 1;
        assert(action_views(plan@) =~= start + seq![ActionView::Say("[rad] build system: manual"@)]
            + manual_build_actions(cmds.take(i as int), n as nat, src_dir@, prefix@, libdir@, is_m32));
    }
    assert(cmds.take(n as int) =~= cmds);
    let ghost mid = action_views(plan@);
    push_action(plan, Action::Say(concat2("[rad] install step: ", install_command.as_str())));
    let mut env: Vec<(String, String)> = Vec::new();
    env.push((lit("DESTDIR"), lit(dest_dir)));
    let mut rest = manual_env_vec(prefix, libdir, is_m32);
    let ghost e1 = env_views(env@);
    assert(e1 =~= seq![("DESTDIR"@, dest_dir@)]);
    let ghost e2 = env_views(rest@);
    env.append(&mut rest);
    assert(env_views(env@) =~= e1 + e2);
    let command = CommandSpec {
        program: lit("sh"),
        args: strings2(lit("-c"), copy_string(install_command)),
        dir: Some(lit(src_dir)),
        env,
    };
    assert(command@ == CommandView {
        program: "sh"@,
        args: seq!["-c"@, install_command@],
        dir: Some(src_dir@),
        env: seq![("DESTDIR"@, dest_dir@)] + manual_env(prefix@, libdir@, is_m32),
    });
    push_action(
        plan,
        Action::Step {
            command,
            start_failure: lit("install step failed to start: "),
            failure: concat2("install step failed: ", install_command.as_str()),
        },
    );
    assert(action_views(plan@) =~= mid + seq![
        ActionView::Say("[rad] install step: "@ + install_command@),
        ActionView::Step {
            command: CommandView {
                program: "sh"@,
                args: seq!["-c"@, install_command@],
                dir: Some(src_dir@),
                env: seq![("DESTDIR"@, dest_dir@)] + manual_env(prefix@, libdir@, is_m32),
            },
            start_failure: "install step failed to start: "@,
            failure: "install step failed: "@ + install_command@,
        },
    ]);
    assert(action_views(plan@) =~= start + (seq![
        ActionView::Say("[rad] build system: manual"@),
    ] + manual_build_actions(cmds, n as nat, src_dir@, prefix@, libdir@, is_m32) + seq![
        ActionView::Say("[rad] install step: "@ + install_command@),
        ActionView::Step {
            command: CommandView {
                program: "sh"@,
                args: seq!["-c"@, install_command@],
                dir: Some(src_dir@),
                env: seq![("DESTDIR"@, dest_dir@)] + manual_env(prefix@, libdir@, is_m32),
            },
            start_failure: "install step failed to start: "@,
            failure: "install step failed: "@ + install_command@,
        },
    ]));
}

/// Plans the build of `pkg` from the sources in `src_dir`, installed under
/// `prefix` and staged in `dest_dir`; the 32-bit flavour when `is_m32`.
pub fn build_and_install(
    pkg: &Package,
    src_dir: &str,
    prefix: &str,
    dest_dir: &str,
    is_m32: bool,
) -> (plan: Vec<Action>)
    ensures
        action_views(plan@) == spec_build_plan(pkg@, src_dir@, prefix@, dest_dir@, is_m32),
{
    let mut plan: Vec<Action> = Vec::new();
    push_action(&mut plan, Action::CreateDir(lit(dest_dir)));
    if is_m32 {
        push_action(
            &mut plan,
            Action::Say(concat2("[rad] building 32-bit version of ", pkg.name.as_str())),
        );
    }
    let ghost head = action_views(plan@);
    let libdir = if is_m32 {
        concat2(prefix, "/lib32")
    } else {
        concat2(prefix, "/lib")
    };
    let cargs = configure_args(pkg, is_m32);
    let build_dir = concat2(src_dir, "/build");
    match &pkg.build_system {
        BuildSystem::Autotools => {
            push_action(&mut plan, Action::Say(lit("[rad] build system: autotools")));
            let mut args = strings2(concat2("--prefix=", prefix), concat2("--libdir=", libdir.as_str()));
            push_all(&mut args, &cargs);
            push_action(
                &mut plan,
                Action::Run { label: lit("configure"), command: plain_cmd("./configure", args, src_dir) },
            );
            push_action(
                &mut plan,
                Action::Run { label: lit("make"), command: make_cmd(src_dir, &strings1(lit("-j4"))) },
            );
            push_action(
                &mut plan,
                Action::Run {
                    label: lit("make install"),
                    command: make_cmd(src_dir, &strings2(concat2("DESTDIR=", dest_dir), lit("install"))),
                },
            );
            assert(action_views(plan@) =~= head + system_actions(pkg@, src_dir@, prefix@, dest_dir@, is_m32));
        },
        BuildSystem::Make => {
            push_action(&mut plan, Action::Say(lit("[rad] build system: make")));
            let mut args = strings1(lit("-j4"));
            push_all(&mut args, &cargs);
            push_action(&mut plan, Action::Run { label: lit("make"), command: make_cmd(src_dir, &args) });
            let mut install_args = strings2(concat2("DESTDIR=", dest_dir), concat2("PREFIX=", prefix));
            push_string(&mut install_args, lit("install"));
            assert(views(install_args@) =~= seq!["DESTDIR="@ + dest_dir@, "PREFIX="@ + prefix@, "install"@]);
            push_action(
                &mut plan,
                Action::Run { label: lit("make install"), command: make_cmd(src_dir, &install_args) },
            );
            assert(action_views(plan@) =~= head + system_actions(pkg@, src_dir@, prefix@, dest_dir@, is_m32));
        },
        BuildSystem::Cmake => {
            push_action(&mut plan, Action::Say(lit("[rad] build system: cmake + ninja")));
            push_action(&mut plan, Action::RemoveDir(copy_string(&build_dir)));
            push_action(&mut plan, Action::CreateDir(copy_string(&build_dir)));
            let mut args = strings2(lit(".."), lit("-GNinja"));
            push_string(&mut args, concat2("-DCMAKE_INSTALL_PREFIX=", prefix));
            push_string(&mut args, concat2("-DCMAKE_INSTALL_LIBDIR=", libdir.as_str()));
            if is_m32 {
                push_string(&mut args, lit("-DCMAKE_C_FLAGS=-m32"));
                push_string(&mut args, lit("-DCMAKE_CXX_FLAGS=-m32"));
            }
            assert(views(args@) =~= seq![
                ".."@,
                "-GNinja"@,
                "-DCMAKE_INSTALL_PREFIX="@ + prefix@,
                "-DCMAKE_INSTALL_LIBDIR="@ + libdir@,
            ] + (if is_m32 {
                seq!["-DCMAKE_C_FLAGS=-m32"@, "-DCMAKE_CXX_FLAGS=-m32"@]
            } else {
                Seq::empty()
            }));
            push_all(&mut args, &cargs);
            push_action(
                &mut plan,
                Action::Run { label: lit("cmake"), command: plain_cmd("cmake", args, build_dir.as_str()) },
            );
            push_action(
                &mut plan,
                Action::Run { label: lit("ninja"), command: ninja_cmd(build_dir.as_str(), &no_args()) },
            );
            push_action(
                &mut plan,
                Action::Run {
                    label: lit("ninja install"),
                    command: ninja_install_cmd(build_dir.as_str(), dest_dir),
                },
            );
            assert(action_views(plan@) =~= head + system_actions(pkg@, src_dir@, prefix@, dest_dir@, is_m32));
        },
        BuildSystem::Meson => {
            push_action(&mut plan, Action::Say(lit("[rad] build system: meson + ninja")));
            let mut args = strings2(lit("setup"), copy_string(&build_dir));
            push_string(&mut args, concat2("--prefix=", prefix));
            push_string(&mut args, concat2("--libdir=", libdir.as_str()));
            assert(views(args@) =~= seq!["setup"@, build_dir@, "--prefix="@ + prefix@, "--libdir="@ + libdir@]);
            push_all(&mut args, &cargs);
            push_action(
                &mut plan,
                Action::Run { label: lit("meson setup"), command: plain_cmd("meson", args, src_dir) },
            );
            push_action(
                &mut plan,
                Action::Run { label: lit("ninja"), command: ninja_cmd(build_dir.as_str(), &no_args()) },
            );
            push_action(
                &mut plan,
                Action::Run {
                    label: lit("ninja install"),
                    command: ninja_install_cmd(build_dir.as_str(), dest_dir),
                },
            );
            assert(action_views(plan@) =~= head + system_actions(pkg@, src_dir@, prefix@, dest_dir@, is_m32));
        },
        BuildSystem::Cargo => {
            push_action(&mut plan, Action::Say(lit("[rad] build system: cargo")));
            push_action(
                &mut plan,
                Action::Run {
                    label: lit("cargo build"),
                    command: plain_cmd("cargo", strings2(lit("build"), lit("--release")), src_dir),
                },
            );
            let bin_dest = concat3(dest_dir, prefix, "/bin");
            push_action(&mut plan, Action::CreateDir(copy_string(&bin_dest)));
            push_action(
                &mut plan,
                Action::Copy {
                    from: concat3(src_dir, "/target/release/", pkg.name.as_str()),
                    to: concat3(bin_dest.as_str(), "/", pkg.name.as_str()),
                    failure: lit("copy binary failed: "),
                },
            );
            assert(action_views(plan@) =~= head + system_actions(pkg@, src_dir@, prefix@, dest_dir@, is_m32));
        },
        BuildSystem::Python => {
            push_action(&mut plan, Action::Say(lit("[rad] build system: python (pip)")));
            let mut args = strings2(lit("install"), lit("--prefix"));
            push_string(&mut args, lit(prefix));
            push_string(&mut args, lit("--root"));
            push_string(&mut args, lit(dest_dir));
            push_string(&mut args, lit("."));
            assert(views(args@) =~= seq!["install"@, "--prefix"@, prefix@, "--root"@, dest_dir@, "."@]);
            push_action(
                &mut plan,
                Action::Run { label: lit("pip install"), command: plain_cmd("pip", args, src_dir) },
            );
            assert(action_views(plan@) =~= head + system_actions(pkg@, src_dir@, prefix@, dest_dir@, is_m32));
        },
        BuildSystem::Manual { build_commands, install_command } => {
            manual_actions(
                &mut plan,
                build_commands,
                install_command,
                src_dir,
                prefix,
                dest_dir,
                libdir.as_str(),
                is_m32,
            );
        },
    }
    assert(action_views(plan@) =~= head + system_actions(pkg@, src_dir@, prefix@, dest_dir@, is_m32));
    push_action(&mut plan, Action::Say(concat2("[rad] build finished! Files are in ", dest_dir)));
    assert(action_views(plan@) =~= spec_build_plan(pkg@, src_dir@, prefix@, dest_dir@, is_m32));
    plan
}

/// Whether `args` ends with `tail`.
pub open spec fn ends_with_args(args: Seq<Seq<char>>, tail: Seq<Seq<char>>) -> bool {
    args.len() >= tail.len() && args.subrange(args.len() - tail.len(), args.len() as int) == tail
}

/// Whether `action` runs a command under `label` whose arguments end with `tail`.
pub open spec fn run_ending_with(action: ActionView, label: Seq<char>, tail: Seq<Seq<char>>) -> bool {
    match action {
        ActionView::Run { label: l, command } => l == label && ends_with_args(command.args, tail),
        _ => false,
    }
}

/// The label of the run that takes the package's configuration arguments, for
/// the build systems that forward them.
pub open spec fn configuring_run(build_system: BuildSystemView) -> Seq<char> {
    match build_system {
        BuildSystemView::Autotools => "configure"@,
        BuildSystemView::Make => "make"@,
        BuildSystemView::Cmake => "cmake"@,
        BuildSystemView::Meson => "meson setup"@,
        _ => Seq::empty(),
    }
}

/// Law: autotools, make, cmake and meson hand the package's configuration
/// arguments to their configuring run (`configure`, `make`, `cmake`,
/// `meson setup`), last on its command line. A 64-bit build hands exactly
/// `configure_args`; a 32-bit build hands `configure_args`, then
/// `--libdir=/usr/lib32 CFLAGS=-m32 CXXFLAGS=-m32 LDFLAGS=-m32
/// --host=i686-pc-linux-gnu`, then `multilib_configure_args`.
pub proof fn lemma_configuration_is_forwarded(
    pkg: PackageView,
    src_dir: Seq<char>,
    prefix: Seq<char>,
    dest_dir: Seq<char>,
    is_m32: bool,
)
    requires
        pkg.build_system is Autotools || pkg.build_system is Make || pkg.build_system is Cmake
            || pkg.build_system is Meson,
    ensures
        ({
            let plan = spec_build_plan(pkg, src_dir, prefix, dest_dir, is_m32);
            let forwarded = if is_m32 {
                pkg.configure_args + seq![
                    "--libdir=/usr/lib32"@,
                    "CFLAGS=-m32"@,
                    "CXXFLAGS=-m32"@,
                    "LDFLAGS=-m32"@,
                    "--host=i686-pc-linux-gnu"@,
                ] + pkg.multilib_configure_args
            } else {
                pkg.configure_args
            };
            exists|i: int|
                0 <= i < plan.len() && run_ending_with(
                    #[trigger] plan[i],
                    configuring_run(pkg.build_system),
                    forwarded,
                )
        }),
{
    let plan = spec_build_plan(pkg, src_dir, prefix, dest_dir, is_m32);
    let sys = system_actions(pkg, src_dir, prefix, dest_dir, is_m32);
    let o: int = if is_m32 { 2 } else { 1 };
    let k: int = if pkg.build_system is Cmake { 3 } else { 1 };
    assert(plan[o + k] == sys[k]);
    let cargs = spec_configure_args(pkg, is_m32);
    match sys[k] {
        ActionView::Run { label, command } => {
            let n = command.args.len() as int;
            assert(command.args.subrange(n - cargs.len(), n) =~= cargs);
        },
        _ => {},
    }
}

/// The directory a command of `action` runs in, for the actions that run one.
pub open spec fn command_dir(action: ActionView) -> Option<Option<Seq<char>>> {
    match action {
        ActionView::Run { command, .. } => Some(command.dir),
        ActionView::Step { command, .. } => Some(command.dir),
        _ => None,
    }
}

/// Whether `args` hold `--root dest`.
pub open spec fn has_root(args: Seq<Seq<char>>, dest: Seq<char>) -> bool {
    exists|j: int| 0 <= j && j + 1 < args.len() && #[trigger] args[j] == "--root"@ && args[j + 1] == dest
}

/// Whether `command` is told to install into `dest`: `DESTDIR=dest` on its
/// command line or in its environment, or `--root dest`.
pub open spec fn command_installs_into(command: CommandView, dest: Seq<char>) -> bool {
    ||| command.args.contains("DESTDIR="@ + dest)
    ||| command.env.contains(("DESTDIR"@, dest))
    ||| has_root(command.args, dest)
}

/// Whether `action` installs into `dest`: a command told so, or a copy to a
/// path under `dest`.
pub open spec fn installs_into(action: ActionView, dest: Seq<char>) -> bool {
    match action {
        ActionView::Run { command, .. } => command_installs_into(command, dest),
        ActionView::Step { command, .. } => command_installs_into(command, dest),
        ActionView::Copy { to, .. } => to.len() >= dest.len() && to.subrange(0, dest.len() as int) == dest,
        _ => false,
    }
}

/// Every manual step runs in the source directory.
proof fn lemma_manual_steps_dir(
    cmds: Seq<Seq<char>>,
    total: nat,
    src_dir: Seq<char>,
    prefix: Seq<char>,
    libdir: Seq<char>,
    is_m32: bool,
)
    ensures
        forall|i: int| 0 <= i < manual_build_actions(cmds, total, src_dir, prefix, libdir, is_m32).len()
            ==> #[trigger] command_dir(manual_build_actions(cmds, total, src_dir, prefix, libdir, is_m32)[i])
            is Some ==> command_dir(manual_build_actions(cmds, total, src_dir, prefix, libdir, is_m32)[i])->0
            == Some(src_dir),
    decreases cmds.len(),
{
    if cmds.len() > 0 {
        lemma_manual_steps_dir(cmds.drop_last(), total, src_dir, prefix, libdir, is_m32);
    }
}

/// Law: every command of a build runs in the package's source directory, or
/// in its `build` subdirectory (cmake, and ninja after meson), whatever the
/// build system and flavour.
pub proof fn lemma_build_runs_in_sources(
    pkg: PackageView,
    src_dir: Seq<char>,
    prefix: Seq<char>,
    dest_dir: Seq<char>,
    is_m32: bool,
)
    ensures
        ({
            let plan = spec_build_plan(pkg, src_dir, prefix, dest_dir, is_m32);
            forall|i: int| 0 <= i < plan.len() ==> #[trigger] command_dir(plan[i]) is Some ==> (
                command_dir(plan[i])->0 == Some(src_dir) || command_dir(plan[i])->0 == Some(
                    src_dir + "/build"@,
                ))
        }),
{
    let plan = spec_build_plan(pkg, src_dir, prefix, dest_dir, is_m32);
    let sys = system_actions(pkg, src_dir, prefix, dest_dir, is_m32);
    let o: int = if is_m32 { 2 } else { 1 };
    assert forall|i: int| 0 <= i < plan.len() && #[trigger] command_dir(plan[i]) is Some implies (
        command_dir(plan[i])->0 == Some(src_dir) || command_dir(plan[i])->0 == Some(src_dir + "/build"@))
    by {
        if o <= i < o + sys.len() {
            assert(plan[i] == sys[i - o]);
            match pkg.build_system {
                BuildSystemView::Manual { build_commands, install_command } => {
                    let libdir = spec_libdir(prefix, is_m32);
                    let steps = manual_build_actions(build_commands, build_commands.len(), src_dir, prefix, libdir, is_m32);
                    lemma_manual_steps_dir(build_commands, build_commands.len(), src_dir, prefix, libdir, is_m32);
                    if 1 <= i - o < 1 + steps.len() {
                        assert(sys[i - o] == steps[i - o - 1]);
                    }
                },
                _ => {},
            }
        }
    }
}

/// Law: every build first creates the staging directory and installs into
/// it, whatever the build system and flavour.
pub proof fn lemma_build_installs_into_staging(
    pkg: PackageView,
    src_dir: Seq<char>,
    prefix: Seq<char>,
    dest_dir: Seq<char>,
    is_m32: bool,
)
    ensures
        ({
            let plan = spec_build_plan(pkg, src_dir, prefix, dest_dir, is_m32);
            &&& plan[0] == ActionView::CreateDir(dest_dir)
            &&& exists|i: int| 0 <= i < plan.len() && installs_into(#[trigger] plan[i], dest_dir)
        }),
{
    let plan = spec_build_plan(pkg, src_dir, prefix, dest_dir, is_m32);
    let sys = system_actions(pkg, src_dir, prefix, dest_dir, is_m32);
    let o: int = if is_m32 { 2 } else { 1 };
    let k: int = match pkg.build_system {
        BuildSystemView::Autotools => 3,
        BuildSystemView::Make => 2,
        BuildSystemView::Cmake => 5,
        BuildSystemView::Meson => 3,
        BuildSystemView::Cargo => 3,
        BuildSystemView::Python => 1,
        BuildSystemView::Manual { .. } => sys.len() - 1,
    };
    assert(plan[o + k] == sys[k]);
    match pkg.build_system {
        BuildSystemView::Python => {
            let command = sys[k]->Run_command;
            assert(command.args[3] == "--root"@ && command.args[4] == dest_dir);
            assert(installs_into(sys[k], dest_dir));
        },
        BuildSystemView::Cmake | BuildSystemView::Meson => {
            let command = sys[k]->Run_command;
            assert(command.env[0] == ("DESTDIR"@, dest_dir));
            assert(installs_into(sys[k], dest_dir));
        },
        BuildSystemView::Autotools | BuildSystemView::Make => {
            let command = sys[k]->Run_command;
            assert(command.args[0] == "DESTDIR="@ + dest_dir);
            assert(installs_into(sys[k], dest_dir));
        },
        BuildSystemView::Cargo => {
            let to = sys[k]->Copy_to;
            assert(to.subrange(0, dest_dir.len() as int) =~= dest_dir);
            assert(installs_into(sys[k], dest_dir));
        },
        BuildSystemView::Manual { .. } => {
            let command = sys[k]->Step_command;
            assert(command.env[0] == ("DESTDIR"@, dest_dir));
            assert(installs_into(sys[k], dest_dir));
        },
    }
    assert(installs_into(plan[o + k], dest_dir));
}

} // verus!
