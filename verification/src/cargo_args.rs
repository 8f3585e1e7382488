//! The cargo command lines of the smaller build steps: building a
//! user-space server as a fixed-base ELF, expanding the kernel's macros,
//! emitting its assembler, and formatting the workspace.

use vstd::prelude::*;
use vstd::string::StringSliceAdditionalSpecFns;
use crate::build_config::{rustflags_value, toml_basic_string};
use crate::bytes::{append_bytes, lit};
use crate::findings::join;
use crate::frontmatter::concat3;
use crate::mailbox::{hex_digits, hex_spec};
use crate::refs::seqs_view;
use crate::steps::{arch_package, artifact_dir, artifact_dir_exec, push_bytes, push_lit, Arch, Profile};

verus! {

/// `--release` for a release build, nothing for a debug one.
pub open spec fn release_flag(profile: Profile) -> Seq<Seq<u8>> {
    if profile == Profile::Release {
        seq!["--release".spec_bytes()]
    } else {
        Seq::empty()
    }
}

fn push_release(a: &mut Vec<Vec<u8>>, profile: Profile)
    ensures
        seqs_view(final(a)@) == seqs_view(old(a)@) + release_flag(profile),
{
    let ghost a0 = seqs_view(a@);
    if profile == Profile::Release {
        push_lit(a, "--release");
    }
    assert(seqs_view(a@) =~= a0 + release_flag(profile));
}

/// The target spec file of a target: `lib/<target>.json`.
pub open spec fn target_spec(target: Seq<u8>) -> Seq<u8> {
    "lib/".spec_bytes() + target + ".json".spec_bytes()
}

/// The flags that link a server as a static, non-PIE ELF at the fixed base
/// `image_base` with `start` as its entry.
pub open spec fn server_rustflags(image_base: u64) -> Seq<Seq<u8>> {
    seq![
        "-Crelocation-model=static".spec_bytes(),
        "-Clink-arg=--image-base=0x".spec_bytes() + hex_spec(image_base as nat),
        "-Clink-arg=-estart".spec_bytes(),
    ]
}

/// `cargo build` of the server package `server` for `target`, linked at
/// `image_base`.
pub open spec fn server_build_args(server: Seq<u8>, target: Seq<u8>, profile: Profile, image_base: u64) -> Seq<
    Seq<u8>,
> {
    seq!["build".spec_bytes(), "-p".spec_bytes(), server, "--target".spec_bytes(), target_spec(target)]
        + release_flag(profile) + seq![
        "-Z".spec_bytes(),
        "build-std=core".spec_bytes(),
        "-Z".spec_bytes(),
        "json-target-spec".spec_bytes(),
        "--config".spec_bytes(),
        "build.rustflags=[".spec_bytes() + join(
            server_rustflags(image_base).map_values(|f: Seq<u8>| toml_basic_string(f)),
            ",".spec_bytes(),
        ) + "]".spec_bytes(),
    ]
}

/// The command line that builds one server.
pub fn server_build_args_exec(server: &[u8], target: &[u8], profile: Profile, image_base: u64) -> (r: Vec<
    Vec<u8>,
>)
    ensures
        seqs_view(r@) == server_build_args(server@, target@, profile, image_base),
{
    let mut a: Vec<Vec<u8>> = Vec::new();
    assert(seqs_view(a@) =~= Seq::<Seq<u8>>::empty());
    push_lit(&mut a, "build");
    push_lit(&mut a, "-p");
    push_bytes(&mut a, server);
    push_lit(&mut a, "--target");
    push_bytes(&mut a, concat3(lit("lib/").as_slice(), target, lit(".json").as_slice()).as_slice());
    let ghost a1 = seqs_view(a@);
    push_release(&mut a, profile);
    let ghost a2 = seqs_view(a@);
    push_lit(&mut a, "-Z");
    push_lit(&mut a, "build-std=core");
    push_lit(&mut a, "-Z");
    push_lit(&mut a, "json-target-spec");
    push_lit(&mut a, "--config");
    let mut flags: Vec<Vec<u8>> = Vec::new();
    flags.push(lit("-Crelocation-model=static"));
    let mut base = lit("-Clink-arg=--image-base=0x");
    append_bytes(&mut base, hex_digits(image_base).as_slice());
    flags.push(base);
    flags.push(lit("-Clink-arg=-estart"));
    assert(seqs_view(flags@) =~= server_rustflags(image_base));
    push_bytes(&mut a, rustflags_value(&flags).as_slice());
    assert(seqs_view(a@) =~= server_build_args(server@, target@, profile, image_base));
    a
}

/// Where a server's ELF is staged: beside the arch's artefacts as
/// `<server>.elf`, on aarch64, the one arch with servers.
pub open spec fn server_elf(arch: Arch, target_dir: Seq<u8>, target: Seq<u8>, profile: Profile, server: Seq<u8>) -> Option<
    Seq<u8>,
> {
    if arch == Arch::Aarch64 {
        Some(crate::steps::path_join(artifact_dir(target_dir, target, profile), server + ".elf".spec_bytes()))
    } else {
        None
    }
}

/// The staged ELF of `server`, if this arch has servers.
pub fn server_elf_exec(arch: Arch, target_dir: &[u8], target: &[u8], profile: Profile, server: &[u8]) -> (r: Option<
    Vec<u8>,
>)
    ensures
        match server_elf(arch, target_dir@, target@, profile, server@) {
            Some(p) => r matches Some(x) && x@ == p,
            None => r is None,
        },
{
    if arch == Arch::Aarch64 {
        let dir = artifact_dir_exec(target_dir, target, profile);
        let name = concat3(server, lit(".elf").as_slice(), &[]);
        Some(crate::steps::path_join_exec(dir.as_slice(), name.as_slice()))
    } else {
        None
    }
}

/// Whether a freshly built server is to be staged: when it is newer than
/// the staged copy, or either time is unknown (the copy absent).
pub fn restage(built: Option<u128>, staged: Option<u128>) -> (r: bool)
    ensures
        r == match (built, staged) {
            (Some(b), Some(e)) => b > e,
            _ => true,
        },
{
    match (built, staged) {
        (Some(b), Some(e)) => b > e,
        _ => true,
    }
}

/// `cargo rustc` over an arch's package for its target spec, with `tail`
/// handed to rustc.
pub open spec fn rustc_args(arch: Arch, target: Seq<u8>, tail: Seq<Seq<u8>>, profile: Profile) -> Seq<Seq<u8>> {
    seq![
        "rustc".spec_bytes(),
        "-Z".spec_bytes(),
        "build-std=core,alloc".spec_bytes(),
        "-p".spec_bytes(),
        arch_package(arch),
        "--target".spec_bytes(),
        target_spec(target),
        "--".spec_bytes(),
    ] + tail + release_flag(profile)
}

/// The rustc arguments that print the kernel with its macros expanded.
pub open spec fn expand_tail() -> Seq<Seq<u8>> {
    seq!["-Z".spec_bytes(), "unpretty=expanded".spec_bytes()]
}

/// The rustc arguments that emit the kernel's assembler.
pub open spec fn kasm_tail() -> Seq<Seq<u8>> {
    seq!["--emit".spec_bytes(), "asm".spec_bytes()]
}

fn rustc_head(arch: Arch, target: &[u8]) -> (r: Vec<Vec<u8>>)
    ensures
        seqs_view(r@) == rustc_args(arch, target@, Seq::empty(), Profile::Debug),
{
    let mut a: Vec<Vec<u8>> = Vec::new();
    assert(seqs_view(a@) =~= Seq::<Seq<u8>>::empty());
    push_lit(&mut a, "rustc");
    push_lit(&mut a, "-Z");
    push_lit(&mut a, "build-std=core,alloc");
    push_lit(&mut a, "-p");
    push_bytes(&mut a, arch.package().as_slice());
    push_lit(&mut a, "--target");
    push_bytes(&mut a, concat3(lit("lib/").as_slice(), target, lit(".json").as_slice()).as_slice());
    push_lit(&mut a, "--");
    assert(seqs_view(a@) =~= rustc_args(arch, target@, Seq::empty(), Profile::Debug));
    a
}

/// The command line of `xtask expand`.
pub fn expand_args(arch: Arch, target: &[u8], profile: Profile) -> (r: Vec<Vec<u8>>)
    ensures
        seqs_view(r@) == rustc_args(arch, target@, expand_tail(), profile),
{
    let mut a = rustc_head(arch, target);
    let ghost a0 = seqs_view(a@);
    push_lit(&mut a, "-Z");
    push_lit(&mut a, "unpretty=expanded");
    push_release(&mut a, profile);
    assert(seqs_view(a@) =~= rustc_args(arch, target@, expand_tail(), profile));
    a
}

/// The command line of `xtask kasm`.
pub fn kasm_args(arch: Arch, target: &[u8], profile: Profile) -> (r: Vec<Vec<u8>>)
    ensures
        seqs_view(r@) == rustc_args(arch, target@, kasm_tail(), profile),
{
    let mut a = rustc_head(arch, target);
    let ghost a0 = seqs_view(a@);
    push_lit(&mut a, "--emit");
    push_lit(&mut a, "asm");
    push_release(&mut a, profile);
    assert(seqs_view(a@) =~= rustc_args(arch, target@, kasm_tail(), profile));
    a
}

/// The command line of `xtask fmt`: `--check` leaves the files alone.
pub fn fmt_args(check: bool) -> (r: Vec<Vec<u8>>)
    ensures
        seqs_view(r@) == seq!["fmt".spec_bytes(), "--all".spec_bytes()] + if check {
            seq!["--check".spec_bytes()]
        } else {
            Seq::<Seq<u8>>::empty()
        },
{
    let mut a: Vec<Vec<u8>> = Vec::new();
    assert(seqs_view(a@) =~= Seq::<Seq<u8>>::empty());
    push_lit(&mut a, "fmt");
    push_lit(&mut a, "--all");
    if check {
        push_lit(&mut a, "--check");
    }
    assert(seqs_view(a@) =~= seq!["fmt".spec_bytes(), "--all".spec_bytes()] + if check {
        seq!["--check".spec_bytes()]
    } else {
        Seq::<Seq<u8>>::empty()
    });
    a
}

} // verus!
