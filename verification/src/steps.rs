//! The build tool's steps as data: which architecture and profile, where
//! the artefacts lie, and the exact command lines each step runs.  Running
//! them is the caller's business.

use vstd::prelude::*;
use vstd::string::StringSliceAdditionalSpecFns;
use crate::build_config::{qemu_args, apply_to_qemu_step, Configuration};
use crate::bytes::{append_bytes, lit, slice_to_vec};
use crate::frontmatter::concat3;
use crate::refs::{lemma_seqs_view_push, seqs_view};

verus! {

/// Written to leave QEMU with the passing status on x86-64.
pub const PASS: u32 = 0x10;

/// Written to leave QEMU with a status that is not the passing one.
pub const FAIL: u32 = 0x11;

/// The process exit status QEMU produces for `PASS` on x86-64:
/// `(0x10 << 1) | 1`.
pub const PASS_STATUS: i32 = 33;

/// Where `-device isa-debug-exit` is asked to sit.
pub const IOBASE: u16 = 0xf4;

/// The feature that builds an arch library so that its test images can
/// leave QEMU with a status, and that marks those targets in the manifest.
pub open spec fn qemu_test_feature() -> Seq<u8> {
    "qemu-test".spec_bytes()
}

/// The build profile.
#[derive(PartialEq, Eq, Structural, Debug, Clone, Copy)]
pub enum Profile {
    Debug,
    Release,
}

pub open spec fn profile_dir(p: Profile) -> Seq<u8> {
    match p {
        Profile::Debug => "debug".spec_bytes(),
        Profile::Release => "release".spec_bytes(),
    }
}

impl Profile {
    /// The artefact directory cargo uses for this profile.
    pub fn dir(&self) -> (r: Vec<u8>)
        ensures
            r@ == profile_dir(*self),
    {
        match self {
            Profile::Debug => lit("debug"),
            Profile::Release => lit("release"),
        }
    }

    /// The profile's name as it is shown.
    pub fn name(&self) -> (r: Vec<u8>)
        ensures
            r@ == match *self {
                Profile::Debug => "Debug".spec_bytes(),
                Profile::Release => "Release".spec_bytes(),
            },
    {
        match self {
            Profile::Debug => lit("Debug"),
            Profile::Release => lit("Release"),
        }
    }
}

/// An architecture r9 supports.
#[derive(PartialEq, Eq, Structural, Debug, Clone, Copy)]
pub enum Arch {
    Aarch64,
    Riscv64,
    X86_64,
}

/// Every architecture, in the order the gates run them.
pub open spec fn all_arches() -> Seq<Arch> {
    seq![Arch::Aarch64, Arch::Riscv64, Arch::X86_64]
}

/// The workspace package of an architecture, also what the host reports
/// as its architecture.
pub open spec fn arch_package(a: Arch) -> Seq<u8> {
    match a {
        Arch::Aarch64 => "aarch64".spec_bytes(),
        Arch::Riscv64 => "riscv64".spec_bytes(),
        Arch::X86_64 => "x86_64".spec_bytes(),
    }
}

pub open spec fn arch_name(a: Arch) -> Seq<u8> {
    match a {
        Arch::Aarch64 => "Aarch64".spec_bytes(),
        Arch::Riscv64 => "Riscv64".spec_bytes(),
        Arch::X86_64 => "X86_64".spec_bytes(),
    }
}

/// The QEMU binary used unless the environment names another.
pub open spec fn default_qemu_system(a: Arch) -> Seq<u8> {
    match a {
        Arch::Aarch64 => "qemu-system-aarch64".spec_bytes(),
        Arch::Riscv64 => "qemu-system-riscv64".spec_bytes(),
        Arch::X86_64 => "qemu-system-x86_64".spec_bytes(),
    }
}

/// The status a passing test image leaves QEMU with: zero where the guest
/// chooses its own status, `PASS_STATUS` on x86-64 (isa-debug-exit returns
/// `(value << 1) | 1`, never zero).
pub open spec fn passing_status(a: Arch) -> i32 {
    match a {
        Arch::Aarch64 | Arch::Riscv64 => 0,
        Arch::X86_64 => PASS_STATUS,
    }
}

impl Arch {
    /// Every architecture, in the order the gates run them.
    pub fn all() -> (r: Vec<Arch>)
        ensures
            r@ == all_arches(),
    {
        let mut v: Vec<Arch> = Vec::new();
        v.push(Arch::Aarch64);
        v.push(Arch::Riscv64);
        v.push(Arch::X86_64);
        assert(v@ =~= all_arches());
        v
    }

    /// The workspace package for this architecture.
    pub fn package(&self) -> (r: Vec<u8>)
        ensures
            r@ == arch_package(*self),
    {
        match self {
            Arch::Aarch64 => lit("aarch64"),
            Arch::Riscv64 => lit("riscv64"),
            Arch::X86_64 => lit("x86_64"),
        }
    }

    /// The architecture's name as it is shown.
    pub fn name(&self) -> (r: Vec<u8>)
        ensures
            r@ == arch_name(*self),
    {
        match self {
            Arch::Aarch64 => lit("Aarch64"),
            Arch::Riscv64 => lit("Riscv64"),
            Arch::X86_64 => lit("X86_64"),
        }
    }

    /// The QEMU binary for this architecture, unless the environment names
    /// another.
    pub fn default_qemu_system(&self) -> (r: Vec<u8>)
        ensures
            r@ == default_qemu_system(*self),
    {
        match self {
            Arch::Aarch64 => lit("qemu-system-aarch64"),
            Arch::Riscv64 => lit("qemu-system-riscv64"),
            Arch::X86_64 => lit("qemu-system-x86_64"),
        }
    }

    /// The target triple built for, unless the environment names another:
    /// `<package>-unknown-none-elf`.
    pub fn default_target(&self) -> (r: Vec<u8>)
        ensures
            r@ == arch_package(*self) + "-unknown-none-elf".spec_bytes(),
    {
        concat3(self.package().as_slice(), lit("-unknown-none-elf").as_slice(), &[])
    }

    /// The process exit status a passing test image leaves QEMU with.
    pub fn passing_status(&self) -> (r: i32)
        ensures
            r == passing_status(*self),
    {
        match self {
            Arch::Aarch64 | Arch::Riscv64 => 0,
            Arch::X86_64 => PASS_STATUS,
        }
    }
}

/// `dir` joined with the relative path `name`, as a path join does: no
/// separator after an empty directory or one that ends in `/`; an
/// absolute `name` stands alone.
pub open spec fn path_join(dir: Seq<u8>, name: Seq<u8>) -> Seq<u8> {
    if name.len() > 0 && name[0] == 47 {
        name
    } else if dir.len() == 0 || dir.last() == 47 {
        dir + name
    } else {
        dir + seq![47u8] + name
    }
}

/// `dir` joined with `name`.
pub fn path_join_exec(dir: &[u8], name: &[u8]) -> (r: Vec<u8>)
    ensures
        r@ == path_join(dir@, name@),
{
    if name.len() > 0 && name[0] == 47 {
        let r = slice_to_vec(name, 0, name.len());
        assert(r@ =~= name@);
        r
    } else if dir.len() == 0 || dir[dir.len() - 1] == 47 {
        concat3(dir, name, &[])
    } else {
        let sep: [u8; 1] = [47];
        assert(sep@ =~= seq![47u8]);
        concat3(dir, sep.as_slice(), name)
    }
}

/// Where one architecture's artefacts for a profile lie.
pub open spec fn artifact_dir(target_dir: Seq<u8>, target: Seq<u8>, p: Profile) -> Seq<u8> {
    path_join(path_join(target_dir, target), profile_dir(p))
}

pub fn artifact_dir_exec(target_dir: &[u8], target: &[u8], p: Profile) -> (r: Vec<u8>)
    ensures
        r@ == artifact_dir(target_dir@, target@, p),
{
    let t = path_join_exec(target_dir, target);
    path_join_exec(t.as_slice(), p.dir().as_slice())
}

pub fn push_lit(v: &mut Vec<Vec<u8>>, s: &str)
    ensures
        seqs_view(final(v)@) == seqs_view(old(v)@).push(s.spec_bytes()),
{
    let x = lit(s);
    proof {
        lemma_seqs_view_push(v@, x);
    }
    v.push(x);
}

pub fn push_bytes(v: &mut Vec<Vec<u8>>, s: &[u8])
    ensures
        seqs_view(final(v)@) == seqs_view(old(v)@).push(s@),
{
    let x = slice_to_vec(s, 0, s.len());
    assert(x@ =~= s@);
    proof {
        lemma_seqs_view_push(v@, x);
    }
    v.push(x);
}

pub open spec fn gdb_args(wait_for_gdb: bool) -> Seq<Seq<u8>> {
    if wait_for_gdb {
        seq!["-s".spec_bytes(), "-S".spec_bytes()]
    } else {
        Seq::empty()
    }
}

/// The x86-64 machine and CPU that the test images and the kernel without
/// KVM run on.
pub open spec fn x86_machine() -> Seq<Seq<u8>> {
    seq![
        "-M".spec_bytes(),
        "q35".spec_bytes(),
        "-cpu".spec_bytes(),
        "qemu64,pdpe1gb,xsaveopt,fsgsbase,apic,msr".spec_bytes(),
    ]
}

pub open spec fn aarch64_run_args(
    config: Configuration,
    image: Option<Seq<u8>>,
    out_dir: Seq<u8>,
    wait_for_gdb: bool,
    verbose: bool,
) -> Seq<Seq<u8>> {
    qemu_args(config) + seq![
        "-nographic".spec_bytes(),
        "-serial".spec_bytes(),
        "mon:stdio".spec_bytes(),
        "-serial".spec_bytes(),
        "null".spec_bytes(),
    ] + gdb_args(wait_for_gdb) + (match image {
        Some(i) => seq!["-semihosting".spec_bytes(), "-no-reboot".spec_bytes(), "-kernel".spec_bytes(), i],
        None => seq!["-kernel".spec_bytes(), path_join(out_dir, "aarch64-qemu.gz".spec_bytes())],
    }) + if verbose {
        seq!["-d".spec_bytes(), "int".spec_bytes()]
    } else {
        Seq::empty()
    }
}

/// The bare virt machine the riscv64 test images run on.
pub open spec fn riscv64_image_args(image: Seq<u8>) -> Seq<Seq<u8>> {
    seq![
        "-machine".spec_bytes(),
        "virt".spec_bytes(),
        "-cpu".spec_bytes(),
        "rv64".spec_bytes(),
        "-smp".spec_bytes(),
        "4".spec_bytes(),
        "-m".spec_bytes(),
        "1024M".spec_bytes(),
        "-serial".spec_bytes(),
        "mon:stdio".spec_bytes(),
        "-no-reboot".spec_bytes(),
        "-kernel".spec_bytes(),
        image,
    ]
}

pub open spec fn riscv64_kernel_args(out_dir: Seq<u8>, wait_for_gdb: bool, dump_dtb: Seq<u8>) -> Seq<
    Seq<u8>,
> {
    seq![
        "-machine".spec_bytes(),
        if dump_dtb.len() > 0 {
            "virt,dumpdtb=".spec_bytes() + dump_dtb
        } else {
            "virt".spec_bytes()
        },
        "-cpu".spec_bytes(),
        "rv64".spec_bytes(),
        "-netdev".spec_bytes(),
        "type=user,id=net0".spec_bytes(),
        "-device".spec_bytes(),
        "virtio-net-device,netdev=net0".spec_bytes(),
        "-smp".spec_bytes(),
        "4".spec_bytes(),
        "-m".spec_bytes(),
        "1024M".spec_bytes(),
        "-serial".spec_bytes(),
        "mon:stdio".spec_bytes(),
    ] + gdb_args(wait_for_gdb) + seq![
        "-d".spec_bytes(),
        "guest_errors,unimp".spec_bytes(),
        "-kernel".spec_bytes(),
        path_join(out_dir, "riscv64".spec_bytes()),
    ]
}

pub open spec fn x86_64_image_args(image: Seq<u8>) -> Seq<Seq<u8>> {
    x86_machine() + seq![
        "-smp".spec_bytes(),
        "8".spec_bytes(),
        "-m".spec_bytes(),
        "8192".spec_bytes(),
        "-serial".spec_bytes(),
        "mon:stdio".spec_bytes(),
        "-device".spec_bytes(),
        "isa-debug-exit,iobase=0xf4,iosize=0x04".spec_bytes(),
        "-no-reboot".spec_bytes(),
        "-kernel".spec_bytes(),
        image,
    ]
}

pub open spec fn x86_64_kernel_args(out_dir: Seq<u8>, wait_for_gdb: bool) -> Seq<Seq<u8>> {
    seq!["-smp".spec_bytes(), "8".spec_bytes(), "-m".spec_bytes(), "8192".spec_bytes()] + gdb_args(
        wait_for_gdb,
    ) + seq!["-kernel".spec_bytes(), path_join(out_dir, "r9.elf32".spec_bytes())]
}

/// The QEMU command line that runs the kernel, or the test image `image`
/// when one is named, the way the harness does.
pub open spec fn qemu_run_args(
    arch: Arch,
    config: Configuration,
    image: Option<Seq<u8>>,
    out_dir: Seq<u8>,
    wait_for_gdb: bool,
    kvm: bool,
    dump_dtb: Seq<u8>,
    verbose: bool,
) -> Seq<Seq<u8>> {
    match arch {
        Arch::Aarch64 => aarch64_run_args(config, image, out_dir, wait_for_gdb, verbose),
        Arch::Riscv64 => seq!["-nographic".spec_bytes()] + match image {
            Some(i) => riscv64_image_args(i),
            None => riscv64_kernel_args(out_dir, wait_for_gdb, dump_dtb),
        },
        Arch::X86_64 => seq!["-nographic".spec_bytes()] + (if kvm {
            seq![
                "-accel".spec_bytes(),
                "kvm".spec_bytes(),
                "-cpu".spec_bytes(),
                "host,pdpe1gb,xsaveopt,fsgsbase,apic,msr".spec_bytes(),
            ]
        } else {
            x86_machine()
        }) + match image {
            Some(i) => x86_64_image_args(i),
            None => x86_64_kernel_args(out_dir, wait_for_gdb),
        },
    }
}

/// Why QEMU cannot be run as asked.
#[derive(PartialEq, Eq, Structural, Debug, Clone, Copy)]
pub enum QemuError {
    /// KVM was asked for on an architecture other than x86-64.
    KvmUnsupported,
}

impl QemuError {
    pub fn message(&self) -> (r: Vec<u8>)
        ensures
            r@ == "KVM only supported under x86-64".spec_bytes(),
    {
        lit("KVM only supported under x86-64")
    }
}

/// KVM runs only under x86-64.
pub fn check_kvm(arch: Arch, kvm: bool) -> (r: Result<(), QemuError>)
    ensures
        r is Err <==> (kvm && arch != Arch::X86_64),
        r matches Err(e) ==> e == QemuError::KvmUnsupported,
{
    if kvm && arch != Arch::X86_64 {
        Err(QemuError::KvmUnsupported)
    } else {
        Ok(())
    }
}

fn push_gdb(args: &mut Vec<Vec<u8>>, wait_for_gdb: bool)
    ensures
        seqs_view(final(args)@) == seqs_view(old(args)@) + gdb_args(wait_for_gdb),
{
    let ghost a0 = seqs_view(args@);
    if wait_for_gdb {
        push_lit(args, "-s");
        push_lit(args, "-S");
    }
    assert(seqs_view(args@) =~= a0 + gdb_args(wait_for_gdb));
}

fn push_x86_machine(a: &mut Vec<Vec<u8>>)
    ensures
        seqs_view(final(a)@) == seqs_view(old(a)@) + x86_machine(),
{
    let ghost a0 = seqs_view(a@);
    push_lit(a, "-M");
    push_lit(a, "q35");
    push_lit(a, "-cpu");
    push_lit(a, "qemu64,pdpe1gb,xsaveopt,fsgsbase,apic,msr");
    assert(seqs_view(a@) =~= a0 + x86_machine());
}

fn aarch64_run_args_exec(
    a: &mut Vec<Vec<u8>>,
    config: &Configuration,
    image: Option<&[u8]>,
    out_dir: &[u8],
    wait_for_gdb: bool,
    verbose: bool,
)
    ensures
        seqs_view(final(a)@) == seqs_view(old(a)@) + aarch64_run_args(
            *config,
            match image {
                Some(i) => Some(i@),
                None => None,
            },
            out_dir@,
            wait_for_gdb,
            verbose,
        ),
{
    let ghost a0 = seqs_view(a@);
    apply_to_qemu_step(a, config);
    let ghost a1 = seqs_view(a@);
    push_lit(a, "-nographic");
    push_lit(a, "-serial");
    push_lit(a, "mon:stdio");
    push_lit(a, "-serial");
    push_lit(a, "null");
    let ghost a2 = seqs_view(a@);
    push_gdb(a, wait_for_gdb);
    let ghost a3 = seqs_view(a@);
    match image {
        Some(i) => {
            push_lit(a, "-semihosting");
            push_lit(a, "-no-reboot");
            push_lit(a, "-kernel");
            push_bytes(a, i);
        },
        None => {
            push_lit(a, "-kernel");
            push_bytes(a, path_join_exec(out_dir, lit("aarch64-qemu.gz").as_slice()).as_slice());
        },
    }
    let ghost a4 = seqs_view(a@);
    if verbose {
        push_lit(a, "-d");
        push_lit(a, "int");
    }
    assert(seqs_view(a@) =~= a0 + aarch64_run_args(
        *config,
        match image {
            Some(i) => Some(i@),
            None => None,
        },
        out_dir@,
        wait_for_gdb,
        verbose,
    ));
}

fn riscv64_image_args_exec(a: &mut Vec<Vec<u8>>, image: &[u8])
    ensures
        seqs_view(final(a)@) == seqs_view(old(a)@) + riscv64_image_args(image@),
{
    let ghost a0 = seqs_view(a@);
    push_lit(a, "-machine");
    push_lit(a, "virt");
    push_lit(a, "-cpu");
    push_lit(a, "rv64");
    push_lit(a, "-smp");
    push_lit(a, "4");
    push_lit(a, "-m");
    push_lit(a, "1024M");
    push_lit(a, "-serial");
    push_lit(a, "mon:stdio");
    push_lit(a, "-no-reboot");
    push_lit(a, "-kernel");
    push_bytes(a, image);
    assert(seqs_view(a@) =~= a0 + riscv64_image_args(image@));
}

fn riscv64_kernel_args_exec(a: &mut Vec<Vec<u8>>, out_dir: &[u8], wait_for_gdb: bool, dump_dtb: &[u8])
    ensures
        seqs_view(final(a)@) == seqs_view(old(a)@) + riscv64_kernel_args(out_dir@, wait_for_gdb, dump_dtb@),
{
    let ghost a0 = seqs_view(a@);
    push_lit(a, "-machine");
    if dump_dtb.len() > 0 {
        push_bytes(a, concat3(lit("virt,dumpdtb=").as_slice(), dump_dtb, &[]).as_slice());
    } else {
        push_lit(a, "virt");
    }
    push_lit(a, "-cpu");
    push_lit(a, "rv64");
    push_lit(a, "-netdev");
    push_lit(a, "type=user,id=net0");
    push_lit(a, "-device");
    push_lit(a, "virtio-net-device,netdev=net0");
    push_lit(a, "-smp");
    push_lit(a, "4");
    push_lit(a, "-m");
    push_lit(a, "1024M");
    push_lit(a, "-serial");
    push_lit(a, "mon:stdio");
    let ghost a1 = seqs_view(a@);
    push_gdb(a, wait_for_gdb);
    let ghost a2 = seqs_view(a@);
    push_lit(a, "-d");
    push_lit(a, "guest_errors,unimp");
    push_lit(a, "-kernel");
    push_bytes(a, path_join_exec(out_dir, lit("riscv64").as_slice()).as_slice());
    assert(seqs_view(a@) =~= a0 + riscv64_kernel_args(out_dir@, wait_for_gdb, dump_dtb@));
}

fn x86_64_image_args_exec(a: &mut Vec<Vec<u8>>, image: &[u8])
    ensures
        seqs_view(final(a)@) == seqs_view(old(a)@) + x86_64_image_args(image@),
{
    let ghost a0 = seqs_view(a@);
    push_x86_machine(a);
    let ghost a1 = seqs_view(a@);
    push_lit(a, "-smp");
    push_lit(a, "8");
    push_lit(a, "-m");
    push_lit(a, "8192");
    push_lit(a, "-serial");
    push_lit(a, "mon:stdio");
    push_lit(a, "-device");
    push_lit(a, "isa-debug-exit,iobase=0xf4,iosize=0x04");
    push_lit(a, "-no-reboot");
    push_lit(a, "-kernel");
    push_bytes(a, image);
    assert(seqs_view(a@) =~= a0 + x86_64_image_args(image@));
}

fn x86_64_kernel_args_exec(a: &mut Vec<Vec<u8>>, out_dir: &[u8], wait_for_gdb: bool)
    ensures
        seqs_view(final(a)@) == seqs_view(old(a)@) + x86_64_kernel_args(out_dir@, wait_for_gdb),
{
    let ghost a0 = seqs_view(a@);
    push_lit(a, "-smp");
    push_lit(a, "8");
    push_lit(a, "-m");
    push_lit(a, "8192");
    let ghost a1 = seqs_view(a@);
    push_gdb(a, wait_for_gdb);
    let ghost a2 = seqs_view(a@);
    push_lit(a, "-kernel");
    push_bytes(a, path_join_exec(out_dir, lit("r9.elf32").as_slice()).as_slice());
    assert(seqs_view(a@) =~= a0 + x86_64_kernel_args(out_dir@, wait_for_gdb));
}

/// The QEMU command line that runs the kernel, or the named test image,
/// for `arch`.  `out_dir` is the arch's artefact directory.
pub fn qemu_run_args_exec(
    arch: Arch,
    config: &Configuration,
    image: Option<&[u8]>,
    out_dir: &[u8],
    wait_for_gdb: bool,
    kvm: bool,
    dump_dtb: &[u8],
    verbose: bool,
) -> (r: Vec<Vec<u8>>)
    ensures
        seqs_view(r@) == qemu_run_args(
            arch,
            *config,
            match image {
                Some(i) => Some(i@),
                None => None,
            },
            out_dir@,
            wait_for_gdb,
            kvm,
            dump_dtb@,
            verbose,
        ),
{
    let mut a: Vec<Vec<u8>> = Vec::new();
    assert(seqs_view(a@) =~= Seq::<Seq<u8>>::empty());
    match arch {
        Arch::Aarch64 => {
            aarch64_run_args_exec(&mut a, config, image, out_dir, wait_for_gdb, verbose);
            assert(seqs_view(a@) =~= Seq::<Seq<u8>>::empty() + aarch64_run_args(
                *config,
                match image {
                    Some(i) => Some(i@),
                    None => None,
                },
                out_dir@,
                wait_for_gdb,
                verbose,
            ));
        },
        Arch::Riscv64 => {
            push_lit(&mut a, "-nographic");
            let ghost a1 = seqs_view(a@);
            match image {
                Some(i) => riscv64_image_args_exec(&mut a, i),
                None => riscv64_kernel_args_exec(&mut a, out_dir, wait_for_gdb, dump_dtb),
            }
        },
        Arch::X86_64 => {
            push_lit(&mut a, "-nographic");
            let ghost a1 = seqs_view(a@);
            if kvm {
                push_lit(&mut a, "-accel");
                push_lit(&mut a, "kvm");
                push_lit(&mut a, "-cpu");
                push_lit(&mut a, "host,pdpe1gb,xsaveopt,fsgsbase,apic,msr");
            } else {
                push_x86_machine(&mut a);
            }
            let ghost a2 = seqs_view(a@);
            match image {
                Some(i) => x86_64_image_args_exec(&mut a, i),
                None => x86_64_kernel_args_exec(&mut a, out_dir, wait_for_gdb),
            }
        },
    }
    assert(seqs_view(a@) =~= qemu_run_args(
        arch,
        *config,
        match image {
            Some(i) => Some(i@),
            None => None,
        },
        out_dir@,
        wait_for_gdb,
        kvm,
        dump_dtb@,
        verbose,
    ));
    a
}

/// One host tool run: the program, its arguments, and the error a failing
/// exit status is reported as.
pub struct ToolRun {
    pub program: Vec<u8>,
    pub args: Vec<Vec<u8>>,
    pub failure: Vec<u8>,
}

pub open spec fn tool_view(t: ToolRun) -> (Seq<u8>, Seq<Seq<u8>>, Seq<u8>) {
    (t.program@, seqs_view(t.args@), t.failure@)
}

pub open spec fn tools_view(v: Seq<ToolRun>) -> Seq<(Seq<u8>, Seq<Seq<u8>>, Seq<u8>)> {
    v.map_values(|t: ToolRun| tool_view(t))
}

/// `objcopy -O binary <from> <to>`: the flat binary QEMU needs to handle
/// device trees.
pub open spec fn flat_binary(objcopy: Seq<u8>, from: Seq<u8>, to: Seq<u8>) -> (Seq<u8>, Seq<Seq<u8>>, Seq<u8>) {
    (objcopy, seq!["-O".spec_bytes(), "binary".spec_bytes(), from, to], "objcopy failed".spec_bytes())
}

/// `gzip -k -f <file>`.
pub open spec fn gzip_run(file: Seq<u8>) -> (Seq<u8>, Seq<Seq<u8>>, Seq<u8>) {
    ("gzip".spec_bytes(), seq!["-k".spec_bytes(), "-f".spec_bytes(), file], "gzip failed".spec_bytes())
}

/// The multiboot elf32 x86-64 boots from.
pub open spec fn elf32_run(objcopy: Seq<u8>, from: Seq<u8>, to: Seq<u8>) -> (Seq<u8>, Seq<Seq<u8>>, Seq<u8>) {
    (
        objcopy,
        seq!["--input-target=elf64-x86-64".spec_bytes(), "--output-target=elf32-i386".spec_bytes(), from, to],
        "objcopy failed".spec_bytes(),
    )
}

fn flat_binary_exec(objcopy: &[u8], from: &[u8], to: &[u8]) -> (r: ToolRun)
    ensures
        tool_view(r) == flat_binary(objcopy@, from@, to@),
{
    let mut args: Vec<Vec<u8>> = Vec::new();
    assert(seqs_view(args@) =~= Seq::<Seq<u8>>::empty());
    push_lit(&mut args, "-O");
    push_lit(&mut args, "binary");
    push_bytes(&mut args, from);
    push_bytes(&mut args, to);
    let r = ToolRun { program: concat3(objcopy, &[], &[]), args, failure: lit("objcopy failed") };
    assert(r.program@ =~= objcopy@);
    assert(seqs_view(r.args@) =~= seq!["-O".spec_bytes(), "binary".spec_bytes(), from@, to@]);
    r
}

fn gzip_exec(file: &[u8]) -> (r: ToolRun)
    ensures
        tool_view(r) == gzip_run(file@),
{
    let mut args: Vec<Vec<u8>> = Vec::new();
    assert(seqs_view(args@) =~= Seq::<Seq<u8>>::empty());
    push_lit(&mut args, "-k");
    push_lit(&mut args, "-f");
    push_bytes(&mut args, file);
    let r = ToolRun { program: lit("gzip"), args, failure: lit("gzip failed") };
    assert(seqs_view(r.args@) =~= seq!["-k".spec_bytes(), "-f".spec_bytes(), file@]);
    r
}

fn elf32_exec(objcopy: &[u8], from: &[u8], to: &[u8]) -> (r: ToolRun)
    ensures
        tool_view(r) == elf32_run(objcopy@, from@, to@),
{
    let mut args: Vec<Vec<u8>> = Vec::new();
    assert(seqs_view(args@) =~= Seq::<Seq<u8>>::empty());
    push_lit(&mut args, "--input-target=elf64-x86-64");
    push_lit(&mut args, "--output-target=elf32-i386");
    push_bytes(&mut args, from);
    push_bytes(&mut args, to);
    let r = ToolRun { program: concat3(objcopy, &[], &[]), args, failure: lit("objcopy failed") };
    assert(r.program@ =~= objcopy@);
    assert(seqs_view(r.args@) =~= seq![
        "--input-target=elf64-x86-64".spec_bytes(),
        "--output-target=elf32-i386".spec_bytes(),
        from@,
        to@,
    ]);
    r
}

proof fn lemma_tools_push(v: Seq<ToolRun>, t: ToolRun)
    ensures
        tools_view(v.push(t)) == tools_view(v).push(tool_view(t)),
{
    assert(tools_view(v.push(t)) =~= tools_view(v).push(tool_view(t)));
}

/// What `dist` runs to turn the built kernel in `out_dir` into the image
/// QEMU boots: a gzipped flat binary on aarch64, a multiboot elf32 on
/// x86-64, a flat binary on riscv64.
pub open spec fn dist_runs(arch: Arch, objcopy: Seq<u8>, out_dir: Seq<u8>) -> Seq<
    (Seq<u8>, Seq<Seq<u8>>, Seq<u8>),
> {
    let a = |n: Seq<u8>| path_join(out_dir, n);
    match arch {
        Arch::Aarch64 => seq![
            flat_binary(objcopy, a("aarch64".spec_bytes()), a("aarch64-qemu".spec_bytes())),
            gzip_run(a("aarch64-qemu".spec_bytes())),
        ],
        Arch::X86_64 => seq![elf32_run(objcopy, a("x86_64".spec_bytes()), a("r9.elf32".spec_bytes()))],
        Arch::Riscv64 => seq![
            flat_binary(objcopy, a("riscv64".spec_bytes()), a("riscv64-qemu".spec_bytes())),
        ],
    }
}

/// The tool runs of `dist` for `arch`, artefacts in `out_dir`.
pub fn dist_runs_exec(arch: Arch, objcopy: &[u8], out_dir: &[u8]) -> (r: Vec<ToolRun>)
    ensures
        tools_view(r@) == dist_runs(arch, objcopy@, out_dir@),
{
    let mut v: Vec<ToolRun> = Vec::new();
    match arch {
        Arch::Aarch64 => {
            let from = path_join_exec(out_dir, lit("aarch64").as_slice());
            let to = path_join_exec(out_dir, lit("aarch64-qemu").as_slice());
            let t1 = flat_binary_exec(objcopy, from.as_slice(), to.as_slice());
            let t2 = gzip_exec(to.as_slice());
            proof {
                lemma_tools_push(v@, t1);
            }
            v.push(t1);
            proof {
                lemma_tools_push(v@, t2);
            }
            v.push(t2);
        },
        Arch::X86_64 => {
            let from = path_join_exec(out_dir, lit("x86_64").as_slice());
            let to = path_join_exec(out_dir, lit("r9.elf32").as_slice());
            let t = elf32_exec(objcopy, from.as_slice(), to.as_slice());
            proof {
                lemma_tools_push(v@, t);
            }
            v.push(t);
        },
        Arch::Riscv64 => {
            let from = path_join_exec(out_dir, lit("riscv64").as_slice());
            let to = path_join_exec(out_dir, lit("riscv64-qemu").as_slice());
            let t = flat_binary_exec(objcopy, from.as_slice(), to.as_slice());
            proof {
                lemma_tools_push(v@, t);
            }
            v.push(t);
        },
    }
    assert(tools_view(v@) =~= dist_runs(arch, objcopy@, out_dir@));
    v
}

/// How a compiled test image `elf` named `name` becomes what QEMU boots,
/// the way `dist` treats the kernel: the runs, and the file booted.
pub open spec fn image_runs(arch: Arch, objcopy: Seq<u8>, out_dir: Seq<u8>, name: Seq<u8>, elf: Seq<u8>) -> (
    Seq<(Seq<u8>, Seq<Seq<u8>>, Seq<u8>)>,
    Seq<u8>,
) {
    match arch {
        Arch::Riscv64 => (Seq::empty(), elf),
        Arch::X86_64 => {
            let elf32 = path_join(out_dir, name + ".elf32".spec_bytes());
            (seq![elf32_run(objcopy, elf, elf32)], elf32)
        },
        Arch::Aarch64 => {
            let flat = path_join(out_dir, name + "-qemu".spec_bytes());
            (
                seq![flat_binary(objcopy, elf, flat), gzip_run(flat)],
                path_join(out_dir, name + "-qemu.gz".spec_bytes()),
            )
        },
    }
}

/// The tool runs that prepare a test image, and the file QEMU boots.
pub fn image_runs_exec(arch: Arch, objcopy: &[u8], out_dir: &[u8], name: &[u8], elf: &[u8]) -> (r: (
    Vec<ToolRun>,
    Vec<u8>,
))
    ensures
        tools_view(r.0@) == image_runs(arch, objcopy@, out_dir@, name@, elf@).0,
        r.1@ == image_runs(arch, objcopy@, out_dir@, name@, elf@).1,
{
    let mut v: Vec<ToolRun> = Vec::new();
    assert(tools_view(v@) =~= Seq::<(Seq<u8>, Seq<Seq<u8>>, Seq<u8>)>::empty());
    match arch {
        Arch::Riscv64 => {
            let e = concat3(elf, &[], &[]);
            assert(e@ =~= elf@);
            (v, e)
        },
        Arch::X86_64 => {
            let elf32 = path_join_exec(out_dir, concat3(name, lit(".elf32").as_slice(), &[]).as_slice());
            let t = elf32_exec(objcopy, elf, elf32.as_slice());
            proof {
                lemma_tools_push(v@, t);
            }
            v.push(t);
            assert(tools_view(v@) =~= image_runs(arch, objcopy@, out_dir@, name@, elf@).0);
            (v, elf32)
        },
        Arch::Aarch64 => {
            let flat = path_join_exec(out_dir, concat3(name, lit("-qemu").as_slice(), &[]).as_slice());
            let t1 = flat_binary_exec(objcopy, elf, flat.as_slice());
            let t2 = gzip_exec(flat.as_slice());
            proof {
                lemma_tools_push(v@, t1);
            }
            v.push(t1);
            proof {
                lemma_tools_push(v@, t2);
            }
            v.push(t2);
            assert(tools_view(v@) =~= image_runs(arch, objcopy@, out_dir@, name@, elf@).0);
            let gz = path_join_exec(out_dir, concat3(name, lit("-qemu.gz").as_slice(), &[]).as_slice());
            (v, gz)
        },
    }
}

/// The QEMU command line that runs one test image: headless, no reboot,
/// and the device through which the image leaves QEMU with a status.
pub open spec fn test_qemu_args(arch: Arch, config: Configuration, image: Seq<u8>) -> Seq<Seq<u8>> {
    seq!["-nographic".spec_bytes()] + (match arch {
        Arch::Aarch64 => qemu_args(config) + seq![
            "-serial".spec_bytes(),
            "mon:stdio".spec_bytes(),
            "-serial".spec_bytes(),
            "null".spec_bytes(),
            "-semihosting".spec_bytes(),
        ],
        Arch::Riscv64 => seq![
            "-machine".spec_bytes(),
            "virt".spec_bytes(),
            "-cpu".spec_bytes(),
            "rv64".spec_bytes(),
            "-smp".spec_bytes(),
            "4".spec_bytes(),
            "-m".spec_bytes(),
            "1024M".spec_bytes(),
            "-serial".spec_bytes(),
            "mon:stdio".spec_bytes(),
        ],
        Arch::X86_64 => x86_machine() + seq![
            "-smp".spec_bytes(),
            "8".spec_bytes(),
            "-m".spec_bytes(),
            "8192".spec_bytes(),
            "-serial".spec_bytes(),
            "mon:stdio".spec_bytes(),
            "-device".spec_bytes(),
            "isa-debug-exit,iobase=0xf4,iosize=0x04".spec_bytes(),
        ],
    }) + seq!["-no-reboot".spec_bytes(), "-kernel".spec_bytes(), image]
}

/// The QEMU command line for one test image.
pub fn test_qemu_args_exec(arch: Arch, config: &Configuration, image: &[u8]) -> (r: Vec<Vec<u8>>)
    ensures
        seqs_view(r@) == test_qemu_args(arch, *config, image@),
{
    let mut a: Vec<Vec<u8>> = Vec::new();
    assert(seqs_view(a@) =~= Seq::<Seq<u8>>::empty());
    push_lit(&mut a, "-nographic");
    let ghost a1 = seqs_view(a@);
    match arch {
        Arch::Aarch64 => {
            apply_to_qemu_step(&mut a, config);
            let ghost a2 = seqs_view(a@);
            push_lit(&mut a, "-serial");
            push_lit(&mut a, "mon:stdio");
            push_lit(&mut a, "-serial");
            push_lit(&mut a, "null");
            push_lit(&mut a, "-semihosting");
        },
        Arch::Riscv64 => {
            push_lit(&mut a, "-machine");
            push_lit(&mut a, "virt");
            push_lit(&mut a, "-cpu");
            push_lit(&mut a, "rv64");
            push_lit(&mut a, "-smp");
            push_lit(&mut a, "4");
            push_lit(&mut a, "-m");
            push_lit(&mut a, "1024M");
            push_lit(&mut a, "-serial");
            push_lit(&mut a, "mon:stdio");
        },
        Arch::X86_64 => {
            push_x86_machine(&mut a);
            let ghost a2 = seqs_view(a@);
            push_lit(&mut a, "-smp");
            push_lit(&mut a, "8");
            push_lit(&mut a, "-m");
            push_lit(&mut a, "8192");
            push_lit(&mut a, "-serial");
            push_lit(&mut a, "mon:stdio");
            push_lit(&mut a, "-device");
            push_lit(&mut a, "isa-debug-exit,iobase=0xf4,iosize=0x04");
        },
    }
    let ghost a3 = seqs_view(a@);
    push_lit(&mut a, "-no-reboot");
    push_lit(&mut a, "-kernel");
    push_bytes(&mut a, image);
    assert(seqs_view(a@) =~= test_qemu_args(arch, *config, image@));
    a
}

/// Where cargo writes build artefacts: the workspace's `target`, or the
/// directory `CARGO_TARGET_DIR` names (`env`), relative to the workspace,
/// when it is set and not empty.
pub open spec fn target_dir(workspace: Seq<u8>, env: Option<Seq<u8>>) -> Seq<u8> {
    match env {
        Some(d) => if d.len() > 0 {
            path_join(workspace, d)
        } else {
            path_join(workspace, "target".spec_bytes())
        },
        None => path_join(workspace, "target".spec_bytes()),
    }
}

/// The build artefact directory for the workspace and the value of
/// `CARGO_TARGET_DIR`, if set.
pub fn target_dir_exec(workspace: &[u8], env: Option<&[u8]>) -> (r: Vec<u8>)
    ensures
        r@ == target_dir(
            workspace@,
            match env {
                Some(d) => Some(d@),
                None => None,
            },
        ),
{
    match env {
        Some(d) => if d.len() > 0 {
            path_join_exec(workspace, d)
        } else {
            path_join_exec(workspace, lit("target").as_slice())
        },
        None => path_join_exec(workspace, lit("target").as_slice()),
    }
}

/// The configuration file `name` of an architecture:
/// `<workspace>/<package>/lib/config_<name>.toml`.
pub open spec fn config_path(workspace: Seq<u8>, arch: Arch, name: Seq<u8>) -> Seq<u8> {
    workspace + "/".spec_bytes() + arch_package(arch) + "/lib/config_".spec_bytes() + name
        + ".toml".spec_bytes()
}

/// The path of an architecture's configuration file `name`.
pub fn config_path_exec(workspace: &[u8], arch: Arch, name: &[u8]) -> (r: Vec<u8>)
    ensures
        r@ == config_path(workspace@, arch, name@),
{
    let mut r = concat3(workspace, lit("/").as_slice(), arch.package().as_slice());
    append_bytes(&mut r, lit("/lib/config_").as_slice());
    append_bytes(&mut r, name);
    append_bytes(&mut r, lit(".toml").as_slice());
    r
}

} // verus!
