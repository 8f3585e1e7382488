use r9::build_config::{
    apply_to_build_step, apply_to_clippy_step, apply_to_qemu_step, check_cfg_exec,
    render_link_script_exec, replace_all_exec, rustflags_value, toml_basic_string_exec, Build,
    Config, Configuration, LinkError, Qemu,
};
use r9::cargo_args::{
    expand_args, fmt_args, kasm_args, restage, server_build_args_exec, server_elf_exec,
};
use r9::harness::{
    exit_verdict_exec, filter_escapes, image_label_exec, json_string_field_exec, run_report_exec,
    run_summary_exec, test_executable_exec, test_names, timeout_message, undeclared_images,
    undeclared_line_exec, ManifestTest, RunResult,
};
use r9::steps::{
    artifact_dir_exec, check_kvm, config_path_exec, dist_runs_exec, image_runs_exec,
    path_join_exec, qemu_run_args_exec, target_dir_exec, test_qemu_args_exec, Arch, Profile,
    QemuError,
};
use r9::toolchain::{host_triple, installed_targets, std_supported_target};

fn b(s: &str) -> Vec<u8> {
    s.as_bytes().to_vec()
}

fn strs(v: &[Vec<u8>]) -> Vec<String> {
    v.iter().map(|x| String::from_utf8(x.clone()).unwrap()).collect()
}

fn list(items: &[&str]) -> Vec<Vec<u8>> {
    items.iter().map(|s| b(s)).collect()
}

fn empty_config() -> Configuration {
    Configuration { build: None, config: None, link: None, qemu: None }
}

fn platform_config() -> Configuration {
    Configuration {
        build: None,
        config: Some(Config {
            dev: Some(list(&["arch"])),
            features: Some(list(&["f1", "f2"])),
            ip: None,
            link: None,
            nodev: None,
            nouart: None,
            platform: Some(b("raspi4b")),
            dtb: None,
        }),
        link: None,
        qemu: None,
    }
}

#[test]
fn toml_strings_escape_quotes_and_backslashes() {
    assert_eq!(toml_basic_string_exec(b"plain"), b("\"plain\""));
    assert_eq!(toml_basic_string_exec(br#"a"b\c"#), b(r#""a\"b\\c""#));
}

#[test]
fn check_cfg_names_the_values() {
    assert_eq!(check_cfg_exec(b"dev_arch"), b("cfg(dev_arch)"));
    assert_eq!(check_cfg_exec(br#"platform="raspi4b""#), b(r#"cfg(platform,values("raspi4b"))"#));
}

#[test]
fn rustflags_become_one_config_value() {
    assert_eq!(rustflags_value(&list(&["-Ca", "b\"c"])), b(r#"build.rustflags=["-Ca","b\"c"]"#));
}

#[test]
fn clippy_gets_features_and_cfgs() {
    let mut args = list(&["clippy"]);
    apply_to_clippy_step(&mut args, &platform_config());
    assert_eq!(
        strs(&args),
        vec![
            "clippy".to_string(),
            "--features=f1,f2".to_string(),
            "--config".to_string(),
            r#"build.rustflags=["--cfg","platform=\"raspi4b\"","--check-cfg","cfg(platform,values(\"raspi4b\"))","--cfg","dev_arch","--check-cfg","cfg(dev_arch)"]"#
                .to_string(),
        ]
    );
    let mut none = list(&["clippy"]);
    apply_to_clippy_step(&mut none, &empty_config());
    assert_eq!(strs(&none), vec!["clippy".to_string()]);
}

#[test]
fn build_step_passes_the_link_script() {
    let config = Configuration {
        build: Some(Build {
            buildflags: Some(list(&["-Zbuild-std=core"])),
            rustflags: Some(list(&["-Copt-level=s"])),
            target: b("aarch64-unknown-none-elf"),
        }),
        config: None,
        link: Some(vec![(b("script"), b("aarch64/lib/kernel.ld")), (b("arch"), b("aarch64"))]),
        qemu: None,
    };
    let mut args = list(&["build"]);
    let script = apply_to_build_step(&mut args, &config, b"/t/aarch64/debug");
    assert_eq!(script, Ok(Some(b("aarch64/lib/kernel.ld"))));
    assert_eq!(
        strs(&args),
        vec![
            "build".to_string(),
            "--target".to_string(),
            "aarch64-unknown-none-elf".to_string(),
            "-Zbuild-std=core".to_string(),
            "--config".to_string(),
            r#"build.rustflags=["-Copt-level=s","-Clink-args=-T/t/aarch64/debug/kernel.ld"]"#
                .to_string(),
        ]
    );
}

#[test]
fn build_step_link_table_without_script_is_an_error() {
    let config = Configuration {
        build: None,
        config: None,
        link: Some(vec![(b("arch"), b("aarch64"))]),
        qemu: None,
    };
    let mut args = Vec::new();
    assert_eq!(apply_to_build_step(&mut args, &config, b"/t"), Err(LinkError::NoScript));
    assert_eq!(LinkError::NoScript.message(), b("config [link] table has no 'script' key"));
    let empty_script = Configuration {
        build: None,
        config: None,
        link: Some(vec![(b("script"), b(""))]),
        qemu: None,
    };
    let mut args = Vec::new();
    assert_eq!(apply_to_build_step(&mut args, &empty_script, b"/t"), Ok(None));
    assert!(args.is_empty());
}

#[test]
fn qemu_step_gets_machine_and_dtb() {
    let config = Configuration {
        build: None,
        config: None,
        link: None,
        qemu: Some(Qemu { machine: Some(b("raspi4b")), dtb: Some(b("x.dtb")) }),
    };
    let mut args = Vec::new();
    apply_to_qemu_step(&mut args, &config);
    assert_eq!(strs(&args), vec!["-M", "raspi4b", "-dtb", "x.dtb"]);
}

#[test]
fn link_script_placeholders_are_filled() {
    assert_eq!(replace_all_exec(b"aXbXc", b"X", b"--"), b("a--b--c"));
    let pairs = vec![
        (b("arch"), b("aarch64")),
        (b("load-address"), b("0x80000")),
        (b("script"), b("k.ld")),
        (b("bogus"), b("1")),
    ];
    let (text, warnings) = render_link_script_exec(b"A=${ARCH} L=${LOAD-ADDRESS} ${ARCH}", &pairs);
    assert_eq!(text, b("A=aarch64 L=0x80000 aarch64"));
    assert_eq!(strs(&warnings), vec!["ignoring unknown option 'bogus = 1'"]);
}

#[test]
fn profiles_and_arches() {
    assert_eq!(Profile::Debug.dir(), b("debug"));
    assert_eq!(Profile::Release.name(), b("Release"));
    assert_eq!(Arch::all(), vec![Arch::Aarch64, Arch::Riscv64, Arch::X86_64]);
    assert_eq!(Arch::Riscv64.package(), b("riscv64"));
    assert_eq!(Arch::X86_64.name(), b("X86_64"));
    assert_eq!(Arch::Aarch64.default_qemu_system(), b("qemu-system-aarch64"));
    assert_eq!(Arch::Riscv64.default_target(), b("riscv64-unknown-none-elf"));
    assert_eq!(Arch::X86_64.passing_status(), 33);
    assert_eq!(Arch::Aarch64.passing_status(), 0);
}

#[test]
fn paths_join_like_the_host() {
    assert_eq!(path_join_exec(b"a", b"b"), b("a/b"));
    assert_eq!(path_join_exec(b"a/", b"b"), b("a/b"));
    assert_eq!(path_join_exec(b"", b"b"), b("b"));
    assert_eq!(path_join_exec(b"a", b"/b"), b("/b"));
    assert_eq!(
        artifact_dir_exec(b"/ws/target", b"aarch64-unknown-none-elf", Profile::Debug),
        b("/ws/target/aarch64-unknown-none-elf/debug")
    );
    assert_eq!(target_dir_exec(b"/ws", Some(b"out")), b("/ws/out"));
    assert_eq!(target_dir_exec(b"/ws", Some(b"/abs")), b("/abs"));
    assert_eq!(target_dir_exec(b"/ws", Some(b"")), b("/ws/target"));
    assert_eq!(target_dir_exec(b"/ws", None), b("/ws/target"));
    assert_eq!(
        config_path_exec(b"/ws", Arch::Riscv64, b"default"),
        b("/ws/riscv64/lib/config_default.toml")
    );
}

#[test]
fn kvm_only_on_x86_64() {
    assert_eq!(check_kvm(Arch::Aarch64, true), Err(QemuError::KvmUnsupported));
    assert_eq!(check_kvm(Arch::X86_64, true), Ok(()));
    assert_eq!(check_kvm(Arch::Riscv64, false), Ok(()));
    assert_eq!(QemuError::KvmUnsupported.message(), b("KVM only supported under x86-64"));
}

#[test]
fn qemu_command_lines() {
    let riscv = qemu_run_args_exec(Arch::Riscv64, &empty_config(), None, b"/out", false, false, b"", false);
    assert_eq!(
        strs(&riscv),
        vec![
            "-nographic", "-machine", "virt", "-cpu", "rv64", "-netdev", "type=user,id=net0",
            "-device", "virtio-net-device,netdev=net0", "-smp", "4", "-m", "1024M", "-serial",
            "mon:stdio", "-d", "guest_errors,unimp", "-kernel", "/out/riscv64",
        ]
    );
    let dtb = qemu_run_args_exec(Arch::Riscv64, &empty_config(), None, b"/out", true, false, b"d.dtb", false);
    assert_eq!(dtb[2], b("virt,dumpdtb=d.dtb"));
    assert!(dtb.contains(&b("-S")));
    let aarch = qemu_run_args_exec(Arch::Aarch64, &empty_config(), Some(b"img"), b"/out", false, false, b"", true);
    assert_eq!(
        strs(&aarch),
        vec![
            "-nographic", "-serial", "mon:stdio", "-serial", "null", "-semihosting", "-no-reboot",
            "-kernel", "img", "-d", "int",
        ]
    );
    let x86 = qemu_run_args_exec(Arch::X86_64, &empty_config(), None, b"/out", false, true, b"", false);
    assert_eq!(
        strs(&x86),
        vec![
            "-nographic", "-accel", "kvm", "-cpu", "host,pdpe1gb,xsaveopt,fsgsbase,apic,msr", "-smp",
            "8", "-m", "8192", "-kernel", "/out/r9.elf32",
        ]
    );
    let image = test_qemu_args_exec(Arch::Riscv64, &empty_config(), b"img");
    assert_eq!(
        strs(&image),
        vec![
            "-nographic", "-machine", "virt", "-cpu", "rv64", "-smp", "4", "-m", "1024M", "-serial",
            "mon:stdio", "-no-reboot", "-kernel", "img",
        ]
    );
}

#[test]
fn dist_and_image_tool_runs() {
    let runs = dist_runs_exec(Arch::Aarch64, b"objcopy", b"/out");
    assert_eq!(runs.len(), 2);
    assert_eq!(runs[0].program, b("objcopy"));
    assert_eq!(strs(&runs[0].args), vec!["-O", "binary", "/out/aarch64", "/out/aarch64-qemu"]);
    assert_eq!(runs[1].program, b("gzip"));
    assert_eq!(strs(&runs[1].args), vec!["-k", "-f", "/out/aarch64-qemu"]);
    assert_eq!(runs[1].failure, b("gzip failed"));
    let (runs, boot) = image_runs_exec(Arch::X86_64, b"oc", b"/out", b"t1", b"/e/t1");
    assert_eq!(runs.len(), 1);
    assert_eq!(
        strs(&runs[0].args),
        vec!["--input-target=elf64-x86-64", "--output-target=elf32-i386", "/e/t1", "/out/t1.elf32"]
    );
    assert_eq!(boot, b("/out/t1.elf32"));
    let (runs, boot) = image_runs_exec(Arch::Riscv64, b"oc", b"/out", b"t1", b"/e/t1");
    assert!(runs.is_empty());
    assert_eq!(boot, b("/e/t1"));
}

#[test]
fn qemu_exit_verdicts() {
    assert_eq!(exit_verdict_exec(Arch::X86_64, 33), Ok(()));
    assert_eq!(exit_verdict_exec(Arch::X86_64, 35), Err(b("qemu failed (exit 35)")));
    assert_eq!(exit_verdict_exec(Arch::Riscv64, -1), Err(b("qemu failed (exit -1)")));
    assert_eq!(timeout_message(30), b("qemu timed out after 30s; killed"));
}

#[test]
fn manifest_images_and_undeclared_files() {
    let tests = vec![
        ManifestTest { name: b("zeta"), required_features: list(&["qemu-test"]) },
        ManifestTest { name: b("alpha"), required_features: list(&["qemu-test"]) },
        ManifestTest { name: b("beta"), required_features: vec![] },
    ];
    assert_eq!(strs(&test_names(&tests)), vec!["alpha", "zeta"]);
    let stems = list(&["gamma", "beta", "alpha"]);
    assert_eq!(undeclared_images(&stems, &tests), vec![(b("beta"), false), (b("gamma"), true)]);
    assert_eq!(
        undeclared_line_exec(Arch::Aarch64, b"gamma", true),
        b("Aarch64: tests/gamma.rs has no [[test]] entry, so nothing builds it")
    );
    assert_eq!(
        undeclared_line_exec(Arch::Aarch64, b"beta", false),
        b("Aarch64: tests/beta.rs has a [[test]] entry, but is missing the qemu-test feature")
    );
}

#[test]
fn run_reports_and_summary() {
    assert_eq!(image_label_exec(Arch::Riscv64, b"ipc"), b("Riscv64 ipc"));
    assert_eq!(run_report_exec(Arch::Riscv64, b"ipc", &RunResult::Exited(0), 9, false), (None, false));
    assert_eq!(
        run_report_exec(Arch::Riscv64, b"ipc", &RunResult::Exited(0), 9, true),
        (Some(b("Riscv64 ipc: ok")), false)
    );
    assert_eq!(
        run_report_exec(Arch::X86_64, b"ipc", &RunResult::Exited(0), 9, false),
        (Some(b("X86_64 ipc: FAILED (exit 0)")), true)
    );
    assert_eq!(
        run_report_exec(Arch::Riscv64, b"ipc", &RunResult::TimedOut, 9, false),
        (Some(b("Riscv64 ipc: TIMED OUT after 9s")), true)
    );
    assert_eq!(
        run_report_exec(Arch::Riscv64, b"ipc", &RunResult::Failed(b("spawn")), 9, false),
        (Some(b("Riscv64 ipc: FAILED (spawn)")), true)
    );
    let (tally, verdict) = run_summary_exec(3, &list(&["Riscv64 ipc"]), &list(&["gamma"]));
    assert_eq!(tally, Some(b("\n2 of 3 passed")));
    assert_eq!(verdict, Err(b("failed: Riscv64 ipc; no [[test]] entry: gamma")));
    let (tally, verdict) = run_summary_exec(0, &vec![], &vec![]);
    assert_eq!(tally, None);
    assert_eq!(verdict, Ok(()));
}

#[test]
fn cargo_json_fields() {
    let line = br#"{"reason":"compiler-artifact","target":{"kind":["test"],"name":"ipc"},"executable":"/t/deps/ipc-\"x\"-1"}"#;
    assert_eq!(json_string_field_exec(line, b"executable"), Some(b(r#"/t/deps/ipc-"x"-1"#)));
    assert_eq!(json_string_field_exec(line, b"missing"), None);
    assert_eq!(test_executable_exec(line, b"ipc"), Some(b(r#"/t/deps/ipc-"x"-1"#)));
    assert_eq!(test_executable_exec(line, b"other"), None);
    let build_script = br#"{"reason":"compiler-artifact","target":{"kind":["custom-build"],"name":"ipc"},"executable":"/t/b"}"#;
    assert_eq!(test_executable_exec(build_script, b"ipc"), None);
}

#[test]
fn terminal_escapes_are_filtered_across_chunks() {
    let (out, carry) = filter_escapes(b"", b"ab\x1b[31mcd\x1bcef\x1b[1");
    assert_eq!(out, b("abcdef"));
    assert_eq!(carry, b("\x1b[1"));
    let (out, carry) = filter_escapes(&carry, b"mX");
    assert_eq!(out, b("X"));
    assert!(carry.is_empty());
}

#[test]
fn toolchain_targets_from_rustup_and_rustc() {
    let listed = b"x86_64-unknown-linux-gnu\nnot a triple\nriscv64gc-unknown-linux-gnu\naarch64-unknown-none\n";
    let installed = installed_targets(listed);
    assert_eq!(
        installed,
        vec![
            (b("x86_64-unknown-linux-gnu"), b("x86_64")),
            (b("riscv64gc-unknown-linux-gnu"), b("riscv64gc")),
            (b("aarch64-unknown-none"), b("aarch64")),
        ]
    );
    assert_eq!(
        std_supported_target(&installed, b"x86_64-unknown-linux-gnu", b"x86_64"),
        Some(b("x86_64-unknown-linux-gnu"))
    );
    assert_eq!(
        std_supported_target(&installed, b"x86_64-unknown-linux-gnu", b"riscv64"),
        Some(b("riscv64gc-unknown-linux-gnu"))
    );
    assert_eq!(std_supported_target(&installed, b"x86_64-unknown-linux-gnu", b"aarch64"), None);
    let vv = b"rustc 1.90.0\nbinary: rustc\nhost: x86_64-unknown-linux-gnu\nrelease: 1.90.0\n";
    assert_eq!(host_triple(vv), Some(b("x86_64-unknown-linux-gnu")));
    assert_eq!(host_triple(b"rustc 1.90.0\n"), None);
}

#[test]
fn small_step_command_lines() {
    assert_eq!(
        strs(&server_build_args_exec(b"console", b"aarch64-unknown-none-elf", Profile::Release, 0x20_0000)),
        vec![
            "build", "-p", "console", "--target", "lib/aarch64-unknown-none-elf.json", "--release", "-Z",
            "build-std=core", "-Z", "json-target-spec", "--config",
            r#"build.rustflags=["-Crelocation-model=static","-Clink-arg=--image-base=0x200000","-Clink-arg=-estart"]"#,
        ]
    );
    assert_eq!(
        server_elf_exec(Arch::Aarch64, b"/t", b"aarch64-unknown-none-elf", Profile::Debug, b"nameserver"),
        Some(b("/t/aarch64-unknown-none-elf/debug/nameserver.elf"))
    );
    assert_eq!(server_elf_exec(Arch::X86_64, b"/t", b"x", Profile::Debug, b"nameserver"), None);
    assert!(restage(Some(2), Some(1)));
    assert!(!restage(Some(1), Some(1)));
    assert!(restage(None, Some(1)));
    assert_eq!(
        strs(&expand_args(Arch::Riscv64, b"riscv64-unknown-none-elf", Profile::Debug)),
        vec![
            "rustc", "-Z", "build-std=core,alloc", "-p", "riscv64", "--target",
            "lib/riscv64-unknown-none-elf.json", "--", "-Z", "unpretty=expanded",
        ]
    );
    assert_eq!(
        strs(&kasm_args(Arch::X86_64, b"x86_64-unknown-none-elf", Profile::Release))[8..].to_vec(),
        vec!["--emit", "asm", "--release"]
    );
    assert_eq!(strs(&fmt_args(true)), vec!["fmt", "--all", "--check"]);
    assert_eq!(strs(&fmt_args(false)), vec!["fmt", "--all"]);
}
