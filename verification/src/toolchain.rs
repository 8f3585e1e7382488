//! The host toolchain's targets, and the cargo command lines of the
//! check, test, clippy, build and server steps.

use vstd::prelude::*;
use vstd::string::StringSliceAdditionalSpecFns;
use crate::build_config::{apply_to_build_step, apply_to_clippy_step, build_step_args, clippy_args, link_script, Configuration, LinkError};
use crate::bytes::{append_bytes, bytes_eq, lit, slice_to_vec};
use crate::findings::{join, join_exec};
use crate::frontmatter::concat3;
use crate::refs::{lemma_seqs_view_push, seqs_view};
use crate::steps::{all_arches, arch_package, push_bytes, push_lit, Arch, Profile};
use crate::text::{lines_exec, lines_of};

verus! {

/// `target_lexicon`'s reading of `text` as a target triple: the triple as
/// it displays and its architecture as it displays, or `None` when the
/// text does not parse as a triple.
pub uninterp spec fn lexicon_triple(text: Seq<u8>) -> Option<(Seq<u8>, Seq<u8>)>;

/// Parses `text` with `target_lexicon::Triple::from_str` (after checking it
/// is UTF-8) and renders the triple and its architecture with `Display`.
/// The contract only names the result: what the crate accepts, and how it
/// spells what it accepted, is the crate's own tables.
#[verifier::external_body]
fn parse_triple(text: &[u8]) -> (r: Option<(Vec<u8>, Vec<u8>)>)
    ensures
        match lexicon_triple(text@) {
            Some((t, a)) => r matches Some((x, y)) && x@ == t && y@ == a,
            None => r is None,
        },
{
    let s = std::str::from_utf8(text).ok()?;
    let t = s.parse::<target_lexicon::Triple>().ok()?;
    Some((t.to_string().into_bytes(), t.architecture.to_string().into_bytes()))
}

/// The triples among `lines` that parse, each with its architecture.
pub open spec fn parsed_triples(lines: Seq<Seq<u8>>) -> Seq<(Seq<u8>, Seq<u8>)>
    decreases lines.len(),
{
    if lines.len() == 0 {
        Seq::empty()
    } else {
        let prev = parsed_triples(lines.drop_last());
        match lexicon_triple(lines.last()) {
            Some(p) => prev.push(p),
            None => prev,
        }
    }
}

pub open spec fn pairs_view(v: Seq<(Vec<u8>, Vec<u8>)>) -> Seq<(Seq<u8>, Seq<u8>)> {
    v.map_values(|p: (Vec<u8>, Vec<u8>)| (p.0@, p.1@))
}

/// The installed targets in `rustup target list --installed` output: each
/// line that parses as a triple, with its architecture.
pub fn installed_targets(output: &[u8]) -> (r: Vec<(Vec<u8>, Vec<u8>)>)
    ensures
        pairs_view(r@) == parsed_triples(lines_of(output@)),
{
    let ls = lines_exec(output);
    let ghost lv = lines_of(output@);
    let mut out: Vec<(Vec<u8>, Vec<u8>)> = Vec::new();
    let mut i: usize = 0;
    assert(lv.subrange(0, 0) =~= Seq::<Seq<u8>>::empty());
    assert(pairs_view(out@) =~= Seq::<(Seq<u8>, Seq<u8>)>::empty());
    while i < ls.len()
        invariant
            i <= ls@.len(),
            ls@.len() == lv.len(),
            forall|m: int| 0 <= m < ls@.len() ==> (#[trigger] ls@[m])@ == lv[m],
            pairs_view(out@) == parsed_triples(lv.subrange(0, i as int)),
        decreases ls@.len() - i,
    {
        proof {
            assert(lv.subrange(0, i + 1).drop_last() =~= lv.subrange(0, i as int));
            assert(lv.subrange(0, i + 1).last() == lv[i as int]);
        }
        let ghost prev = pairs_view(out@);
        match parse_triple(ls[i].as_slice()) {
            Some(p) => {
                let ghost pv = (p.0@, p.1@);
                out.push(p);
                assert(pairs_view(out@) =~= prev.push(pv));
            },
            None => {},
        }
        i = i + 1;
    }
    assert(lv.subrange(0, lv.len() as int) =~= lv);
    out
}

/// The architecture as the toolchains spell it.
pub open spec fn target_arch(arch: Seq<u8>) -> Seq<u8> {
    if arch == "riscv64".spec_bytes() {
        "riscv64gc".spec_bytes()
    } else {
        arch
    }
}

/// The first of `ts[i..]` with architecture `arch` and triple `want`.
pub open spec fn first_target(ts: Seq<(Seq<u8>, Seq<u8>)>, arch: Seq<u8>, want: Seq<u8>, i: int) -> Option<
    Seq<u8>,
>
    decreases ts.len() - i,
{
    if i < 0 || i >= ts.len() {
        None
    } else if ts[i].1 == arch && ts[i].0 == want {
        Some(ts[i].0)
    } else {
        first_target(ts, arch, want, i + 1)
    }
}

/// The installed target with `std` for `arch` that check and test use: the
/// host's own triple when it is of that architecture, else
/// `<arch>-unknown-linux-gnu`.
pub open spec fn std_target(ts: Seq<(Seq<u8>, Seq<u8>)>, host: Seq<u8>, arch: Seq<u8>) -> Option<Seq<u8>> {
    let a = target_arch(arch);
    match first_target(ts, a, host, 0) {
        Some(t) => Some(t),
        None => first_target(ts, a, a + "-unknown-linux-gnu".spec_bytes(), 0),
    }
}

fn first_target_exec(ts: &Vec<(Vec<u8>, Vec<u8>)>, arch: &[u8], want: &[u8]) -> (r: Option<Vec<u8>>)
    ensures
        match first_target(pairs_view(ts@), arch@, want@, 0) {
            Some(t) => r matches Some(x) && x@ == t,
            None => r is None,
        },
{
    let ghost tv = pairs_view(ts@);
    let mut i: usize = 0;
    while i < ts.len()
        invariant
            i <= ts@.len(),
            tv == pairs_view(ts@),
            first_target(tv, arch@, want@, i as int) == first_target(tv, arch@, want@, 0),
        decreases ts@.len() - i,
    {
        if bytes_eq(ts[i].1.as_slice(), arch) && bytes_eq(ts[i].0.as_slice(), want) {
            let t = slice_to_vec(ts[i].0.as_slice(), 0, ts[i].0.len());
            assert(t@ =~= tv[i as int].0);
            return Some(t);
        }
        i = i + 1;
    }
    None
}

/// For the given arch, an installed target with `std` that cargo check can
/// use: the host's own triple (whose binaries can run) if it is of that
/// arch, and otherwise `<arch>-unknown-linux-gnu`.
pub fn std_supported_target(installed: &Vec<(Vec<u8>, Vec<u8>)>, host: &[u8], arch: &[u8]) -> (r: Option<
    Vec<u8>,
>)
    ensures
        match std_target(pairs_view(installed@), host@, arch@) {
            Some(t) => r matches Some(x) && x@ == t,
            None => r is None,
        },
{
    let a = if bytes_eq(arch, lit("riscv64").as_slice()) {
        lit("riscv64gc")
    } else {
        slice_to_vec(arch, 0, arch.len())
    };
    assert(a@ =~= target_arch(arch@));
    match first_target_exec(installed, a.as_slice(), host) {
        Some(t) => Some(t),
        None => {
            let want = concat3(a.as_slice(), lit("-unknown-linux-gnu").as_slice(), &[]);
            first_target_exec(installed, a.as_slice(), want.as_slice())
        },
    }
}

pub open spec fn lists_view(v: Seq<Vec<Vec<u8>>>) -> Seq<Seq<Seq<u8>>> {
    v.map_values(|a: Vec<Vec<u8>>| seqs_view(a@))
}

proof fn lemma_lists_push(v: Seq<Vec<Vec<u8>>>, a: Vec<Vec<u8>>)
    ensures
        lists_view(v.push(a)) == lists_view(v).push(seqs_view(a@)),
{
    assert(lists_view(v.push(a)) =~= lists_view(v).push(seqs_view(a@)));
}

fn push_list(v: &mut Vec<Vec<Vec<u8>>>, a: Vec<Vec<u8>>)
    ensures
        lists_view(final(v)@) == lists_view(old(v)@).push(seqs_view(a@)),
{
    proof {
        lemma_lists_push(v@, a);
    }
    v.push(a);
}

/// `cargo check` over every arch's bins, then port's lib, tests and
/// benches, with the default toolchain.
pub open spec fn check_bins(a: Arch) -> Seq<Seq<u8>> {
    seq!["check".spec_bytes(), "--package".spec_bytes(), arch_package(a), "--bins".spec_bytes()]
}

pub open spec fn check_bins_lib_lists() -> Seq<Seq<Seq<u8>>> {
    seq![check_bins(Arch::Aarch64), check_bins(Arch::Riscv64), check_bins(Arch::X86_64)].push(
        seq![
            "check".spec_bytes(),
            "--package".spec_bytes(),
            "port".spec_bytes(),
            "--lib".spec_bytes(),
            "--tests".spec_bytes(),
            "--benches".spec_bytes(),
        ],
    )
}

fn check_bins_exec(a: Arch) -> (r: Vec<Vec<u8>>)
    ensures
        seqs_view(r@) == check_bins(a),
{
    let mut v: Vec<Vec<u8>> = Vec::new();
    assert(seqs_view(v@) =~= Seq::<Seq<u8>>::empty());
    push_lit(&mut v, "check");
    push_lit(&mut v, "--package");
    push_bytes(&mut v, a.package().as_slice());
    push_lit(&mut v, "--bins");
    assert(seqs_view(v@) =~= seq!["check".spec_bytes(), "--package".spec_bytes(), arch_package(a), "--bins".spec_bytes()]);
    v
}

/// The argument lists of the check over bins and libs.
pub fn check_bins_lib_lists_exec() -> (r: Vec<Vec<Vec<u8>>>)
    ensures
        lists_view(r@) == check_bins_lib_lists(),
{
    let mut v: Vec<Vec<Vec<u8>>> = Vec::new();
    assert(lists_view(v@) =~= Seq::<Seq<Seq<u8>>>::empty());
    push_list(&mut v, check_bins_exec(Arch::Aarch64));
    push_list(&mut v, check_bins_exec(Arch::Riscv64));
    push_list(&mut v, check_bins_exec(Arch::X86_64));
    let mut p: Vec<Vec<u8>> = Vec::new();
    assert(seqs_view(p@) =~= Seq::<Seq<u8>>::empty());
    push_lit(&mut p, "check");
    push_lit(&mut p, "--package");
    push_lit(&mut p, "port");
    push_lit(&mut p, "--lib");
    push_lit(&mut p, "--tests");
    push_lit(&mut p, "--benches");
    assert(seqs_view(p@) =~= seq![
        "check".spec_bytes(),
        "--package".spec_bytes(),
        "port".spec_bytes(),
        "--lib".spec_bytes(),
        "--tests".spec_bytes(),
        "--benches".spec_bytes(),
    ]);
    push_list(&mut v, p);
    assert(lists_view(v@) =~= check_bins_lib_lists());
    v
}

/// The skip notice for an arch with no `std` target installed.
pub open spec fn no_std_target_line(package: Seq<u8>) -> Seq<u8> {
    "xtask: skipping ".spec_bytes() + package
        + " tests and benches: no installed target has std for it".spec_bytes()
}

/// The skip notice for an arch package with no `std` target installed.
pub fn no_std_target_line_exec(package: &[u8]) -> (r: Vec<u8>)
    ensures
        r@ == no_std_target_line(package@),
{
    concat3(
        lit("xtask: skipping ").as_slice(),
        package,
        lit(" tests and benches: no installed target has std for it").as_slice(),
    )
}

/// The check over each arch's tests and benches on its `std` target
/// (`targets[k]` for the k-th arch), and a skip notice for each arch
/// without one.
pub open spec fn check_std_lists(targets: Seq<Option<Seq<u8>>>, k: int) -> (Seq<Seq<Seq<u8>>>, Seq<Seq<u8>>)
    decreases k,
{
    if k <= 0 {
        (Seq::empty(), Seq::empty())
    } else {
        let prev = check_std_lists(targets, k - 1);
        let package = arch_package(all_arches()[k - 1]);
        match targets[k - 1] {
            None => (prev.0, prev.1.push(no_std_target_line(package))),
            Some(t) => (
                prev.0.push(
                    seq![
                        "check".spec_bytes(),
                        "--package".spec_bytes(),
                        package,
                        "--tests".spec_bytes(),
                        "--benches".spec_bytes(),
                        "--target".spec_bytes(),
                        t,
                    ],
                ),
                prev.1,
            ),
        }
    }
}

pub open spec fn opts_view(v: Seq<Option<Vec<u8>>>) -> Seq<Option<Seq<u8>>> {
    v.map_values(|o: Option<Vec<u8>>| match o {
        Some(x) => Some(x@),
        None => None,
    })
}

/// The argument lists of the check over each arch's tests and benches,
/// given each arch's `std` target in the gates' arch order, and the skip
/// notices.
pub fn check_std_lists_exec(targets: &Vec<Option<Vec<u8>>>) -> (r: (Vec<Vec<Vec<u8>>>, Vec<Vec<u8>>))
    requires
        targets@.len() == 3,
    ensures
        lists_view(r.0@) == check_std_lists(opts_view(targets@), 3).0,
        seqs_view(r.1@) == check_std_lists(opts_view(targets@), 3).1,
{
    let ghost tv = opts_view(targets@);
    let arches = Arch::all();
    let mut lists: Vec<Vec<Vec<u8>>> = Vec::new();
    let mut skips: Vec<Vec<u8>> = Vec::new();
    let mut k: usize = 0;
    assert(lists_view(lists@) =~= Seq::<Seq<Seq<u8>>>::empty());
    assert(seqs_view(skips@) =~= Seq::<Seq<u8>>::empty());
    while k < 3
        invariant
            k <= 3,
            targets@.len() == 3,
            arches@ == all_arches(),
            tv == opts_view(targets@),
            lists_view(lists@) == check_std_lists(tv, k as int).0,
            seqs_view(skips@) == check_std_lists(tv, k as int).1,
        decreases 3 - k,
    {
        let package = arches[k].package();
        proof {
            assert(tv[k as int] == match targets@[k as int] {
                Some(x) => Some(x@),
                None => None::<Seq<u8>>,
            });
            assert(arches@[k as int] == all_arches()[k as int]);
        }
        match &targets[k] {
            None => {
                let l = concat3(lit("xtask: skipping ").as_slice(), package.as_slice(), lit(" tests and benches: no installed target has std for it").as_slice());
                proof {
                    lemma_seqs_view_push(skips@, l);
                }
                skips.push(l);
            },
            Some(t) => {
                let mut v: Vec<Vec<u8>> = Vec::new();
                assert(seqs_view(v@) =~= Seq::<Seq<u8>>::empty());
                push_lit(&mut v, "check");
                push_lit(&mut v, "--package");
                push_bytes(&mut v, package.as_slice());
                push_lit(&mut v, "--tests");
                push_lit(&mut v, "--benches");
                push_lit(&mut v, "--target");
                push_bytes(&mut v, t.as_slice());
                assert(seqs_view(v@) =~= seq![
                    "check".spec_bytes(),
                    "--package".spec_bytes(),
                    package@,
                    "--tests".spec_bytes(),
                    "--benches".spec_bytes(),
                    "--target".spec_bytes(),
                    t@,
                ]);
                push_list(&mut lists, v);
            },
        }
        k = k + 1;
    }
    (lists, skips)
}

/// The check of one QEMU test image.
pub open spec fn image_check(package: Seq<u8>, name: Seq<u8>) -> Seq<Seq<u8>> {
    seq![
        "check".spec_bytes(),
        "--package".spec_bytes(),
        package,
        "--test".spec_bytes(),
        name,
        "--features".spec_bytes(),
        "qemu-test".spec_bytes(),
    ]
}

pub open spec fn image_checks(package: Seq<u8>, names: Seq<Seq<u8>>) -> Seq<Seq<Seq<u8>>>
    decreases names.len(),
{
    if names.len() == 0 {
        Seq::empty()
    } else {
        image_checks(package, names.drop_last()).push(image_check(package, names.last()))
    }
}

/// The check over each QEMU test image, `names[k]` the images of the k-th
/// arch, one target at a time.
pub open spec fn check_image_lists(names: Seq<Seq<Seq<u8>>>, k: int) -> Seq<Seq<Seq<u8>>>
    decreases k,
{
    if k <= 0 {
        Seq::empty()
    } else {
        check_image_lists(names, k - 1) + image_checks(arch_package(all_arches()[k - 1]), names[k - 1])
    }
}

/// The argument lists of the check over the QEMU test images, given each
/// arch's image names in the gates' arch order.
pub fn check_image_lists_exec(names: &Vec<Vec<Vec<u8>>>) -> (r: Vec<Vec<Vec<u8>>>)
    requires
        names@.len() == 3,
    ensures
        lists_view(r@) == check_image_lists(lists_view(names@), 3),
{
    let ghost nv = lists_view(names@);
    let arches = Arch::all();
    let mut lists: Vec<Vec<Vec<u8>>> = Vec::new();
    let mut k: usize = 0;
    assert(lists_view(lists@) =~= Seq::<Seq<Seq<u8>>>::empty());
    while k < 3
        invariant
            k <= 3,
            names@.len() == 3,
            arches@ == all_arches(),
            nv == lists_view(names@),
            lists_view(lists@) == check_image_lists(nv, k as int),
        decreases 3 - k,
    {
        let package = arches[k].package();
        let ns = &names[k];
        let ghost base = lists_view(lists@);
        let ghost nsv = seqs_view(ns@);
        let mut j: usize = 0;
        assert(nsv.subrange(0, 0) =~= Seq::<Seq<u8>>::empty());
        assert(base + image_checks(package@, nsv.subrange(0, 0)) =~= base);
        while j < ns.len()
            invariant
                j <= ns@.len(),
                nsv == seqs_view(ns@),
                lists_view(lists@) == base + image_checks(package@, nsv.subrange(0, j as int)),
            decreases ns@.len() - j,
        {
            proof {
                assert(nsv.subrange(0, j + 1).drop_last() =~= nsv.subrange(0, j as int));
                assert(nsv.subrange(0, j + 1).last() == ns@[j as int]@);
            }
            let mut v: Vec<Vec<u8>> = Vec::new();
            assert(seqs_view(v@) =~= Seq::<Seq<u8>>::empty());
            push_lit(&mut v, "check");
            push_lit(&mut v, "--package");
            push_bytes(&mut v, package.as_slice());
            push_lit(&mut v, "--test");
            push_bytes(&mut v, ns[j].as_slice());
            push_lit(&mut v, "--features");
            push_lit(&mut v, "qemu-test");
            assert(seqs_view(v@) =~= image_check(package@, ns@[j as int]@));
            push_list(&mut lists, v);
            assert(base + image_checks(package@, nsv.subrange(0, j + 1)) =~= (base + image_checks(
                package@,
                nsv.subrange(0, j as int),
            )).push(image_check(package@, ns@[j as int]@)));
            j = j + 1;
        }
        assert(nsv.subrange(0, nsv.len() as int) =~= nsv);
        assert(nv[k as int] == nsv);
        assert(arches@[k as int] == all_arches()[k as int]);
        k = k + 1;
    }
    lists
}

/// What `--json` adds to every check: cargo's JSON messages, quietly.
pub open spec fn json_args(json: bool) -> Seq<Seq<u8>> {
    if json {
        seq!["--message-format=json".spec_bytes(), "--quiet".spec_bytes()]
    } else {
        Seq::empty()
    }
}

/// Add the JSON output arguments when asked.
pub fn push_json_args(args: &mut Vec<Vec<u8>>, json: bool)
    ensures
        seqs_view(final(args)@) == seqs_view(old(args)@) + json_args(json),
{
    let ghost a0 = seqs_view(args@);
    if json {
        push_lit(args, "--message-format=json");
        push_lit(args, "--quiet");
    }
    assert(seqs_view(args@) =~= a0 + json_args(json));
}

/// `--exclude <package>` for every arch but `arch`.
pub open spec fn exclude_others(arch: Arch) -> Seq<Seq<u8>> {
    match arch {
        Arch::Aarch64 => seq!["--exclude".spec_bytes(), "riscv64".spec_bytes(), "--exclude".spec_bytes(), "x86_64".spec_bytes()],
        Arch::Riscv64 => seq!["--exclude".spec_bytes(), "aarch64".spec_bytes(), "--exclude".spec_bytes(), "x86_64".spec_bytes()],
        Arch::X86_64 => seq!["--exclude".spec_bytes(), "aarch64".spec_bytes(), "--exclude".spec_bytes(), "riscv64".spec_bytes()],
    }
}

/// Exclude the architectures other than the one being built.
pub fn exclude_other_arches(arch: Arch, args: &mut Vec<Vec<u8>>)
    ensures
        seqs_view(final(args)@) == seqs_view(old(args)@) + exclude_others(arch),
{
    let ghost a0 = seqs_view(args@);
    let arches = Arch::all();
    let mut k: usize = 0;
    while k < 3
        invariant
            k <= 3,
            arches@ == all_arches(),
            seqs_view(args@) == a0 + exclude_others_upto(arch, k as int),
        decreases 3 - k,
    {
        assert(arches@[k as int] == all_arches()[k as int]);
        if arches[k] != arch {
            push_lit(args, "--exclude");
            push_bytes(args, arches[k].package().as_slice());
        }
        k = k + 1;
    }
    assert(exclude_others_upto(arch, 3) =~= exclude_others(arch)) by {
        reveal_with_fuel(exclude_others_upto, 4);
    }
}

pub open spec fn exclude_others_upto(arch: Arch, k: int) -> Seq<Seq<u8>>
    decreases k,
{
    if k <= 0 {
        Seq::empty()
    } else {
        exclude_others_upto(arch, k - 1) + if all_arches()[k - 1] != arch {
            seq!["--exclude".spec_bytes(), arch_package(all_arches()[k - 1])]
        } else {
            Seq::empty()
        }
    }
}

/// The `cargo build` of the kernel image: what the configuration asks for,
/// the whole workspace but the build tool, the servers and the other
/// arches, the profile, and build-std.
pub open spec fn kernel_build_args(arch: Arch, config: Configuration, link_dir: Seq<u8>, profile: Profile) -> Seq<
    Seq<u8>,
> {
    seq!["build".spec_bytes()] + build_step_args(config, link_dir) + seq![
        "--workspace".spec_bytes(),
        "--exclude".spec_bytes(),
        "xtask".spec_bytes(),
        "--exclude".spec_bytes(),
        "console".spec_bytes(),
        "--exclude".spec_bytes(),
        "nameserver".spec_bytes(),
    ] + exclude_others(arch) + (if profile == Profile::Release {
        seq!["--release".spec_bytes()]
    } else {
        Seq::empty()
    }) + seq![
        "-Z".spec_bytes(),
        "build-std=core,alloc".spec_bytes(),
        "-Z".spec_bytes(),
        "json-target-spec".spec_bytes(),
    ]
}

/// The arguments of the kernel build, and the linker script the caller
/// must render into `link_dir/kernel.ld`, if any.
pub fn kernel_build_args_exec(arch: Arch, config: &Configuration, link_dir: &[u8], profile: Profile) -> (r:
    Result<(Vec<Vec<u8>>, Option<Vec<u8>>), LinkError>)
    ensures
        match link_script(*config) {
            Err(e) => r == Err::<(Vec<Vec<u8>>, Option<Vec<u8>>), LinkError>(e),
            Ok(s) => r matches Ok((a, o)) && seqs_view(a@) == kernel_build_args(arch, *config, link_dir@, profile)
                && match (o, s) {
                (Some(x), Some(y)) => x@ == y,
                (None, None) => true,
                _ => false,
            },
        },
{
    let mut a: Vec<Vec<u8>> = Vec::new();
    assert(seqs_view(a@) =~= Seq::<Seq<u8>>::empty());
    push_lit(&mut a, "build");
    let ghost a1 = seqs_view(a@);
    let script = match apply_to_build_step(&mut a, config, link_dir) {
        Err(e) => return Err(e),
        Ok(s) => s,
    };
    let ghost a2 = seqs_view(a@);
    push_lit(&mut a, "--workspace");
    push_lit(&mut a, "--exclude");
    push_lit(&mut a, "xtask");
    push_lit(&mut a, "--exclude");
    push_lit(&mut a, "console");
    push_lit(&mut a, "--exclude");
    push_lit(&mut a, "nameserver");
    let ghost a3 = seqs_view(a@);
    exclude_other_arches(arch, &mut a);
    let ghost a4 = seqs_view(a@);
    if profile == Profile::Release {
        push_lit(&mut a, "--release");
    }
    let ghost a5 = seqs_view(a@);
    push_lit(&mut a, "-Z");
    push_lit(&mut a, "build-std=core,alloc");
    push_lit(&mut a, "-Z");
    push_lit(&mut a, "json-target-spec");
    assert(seqs_view(a@) =~= kernel_build_args(arch, *config, link_dir@, profile));
    Ok((a, script))
}

/// The packages whose tests run on this host: port, and the arch package
/// of the host's own architecture; the others are skipped.
pub open spec fn test_packages(host: Seq<u8>, k: int) -> (Seq<Seq<u8>>, Seq<Seq<u8>>)
    decreases k,
{
    if k <= 0 {
        (seq!["port".spec_bytes()], Seq::empty())
    } else {
        let prev = test_packages(host, k - 1);
        let p = arch_package(all_arches()[k - 1]);
        if p == host {
            (prev.0.push(p), prev.1)
        } else {
            (prev.0, prev.1.push(p))
        }
    }
}

/// The packages whose tests run on a host of architecture `host`, and those
/// skipped: an arch package's tests run only natively.
pub fn test_packages_exec(host: &[u8]) -> (r: (Vec<Vec<u8>>, Vec<Vec<u8>>))
    ensures
        seqs_view(r.0@) == test_packages(host@, 3).0,
        seqs_view(r.1@) == test_packages(host@, 3).1,
{
    let arches = Arch::all();
    let mut run: Vec<Vec<u8>> = Vec::new();
    assert(seqs_view(run@) =~= Seq::<Seq<u8>>::empty());
    push_lit(&mut run, "port");
    let mut skipped: Vec<Vec<u8>> = Vec::new();
    assert(seqs_view(skipped@) =~= Seq::<Seq<u8>>::empty());
    let mut k: usize = 0;
    assert(seqs_view(run@) =~= seq!["port".spec_bytes()]);
    while k < 3
        invariant
            k <= 3,
            arches@ == all_arches(),
            seqs_view(run@) == test_packages(host@, k as int).0,
            seqs_view(skipped@) == test_packages(host@, k as int).1,
        decreases 3 - k,
    {
        let p = arches[k].package();
        if bytes_eq(p.as_slice(), host) {
            push_bytes(&mut run, p.as_slice());
        } else {
            push_bytes(&mut skipped, p.as_slice());
        }
        k = k + 1;
    }
    (run, skipped)
}

/// The loud skip notice for the arch packages not tested on this host.
pub open spec fn skipped_line(skipped: Seq<Seq<u8>>) -> Seq<u8> {
    "xtask: skipping ".spec_bytes() + join(skipped, ", ".spec_bytes())
        + ": an arch package's tests run only on its native host".spec_bytes()
}

pub fn skipped_line_exec(skipped: &Vec<Vec<u8>>) -> (r: Vec<u8>)
    ensures
        r@ == skipped_line(seqs_view(skipped@)),
{
    concat3(
        lit("xtask: skipping ").as_slice(),
        join_exec(skipped, lit(", ").as_slice()).as_slice(),
        lit(": an arch package's tests run only on its native host").as_slice(),
    )
}

/// `cargo test` for one package on the host's `std` target: `--quiet`
/// unless verbose, and cargo's JSON messages when asked.
pub open spec fn test_args(package: Seq<u8>, target: Seq<u8>, json: bool, verbose: bool) -> Seq<Seq<u8>> {
    seq![
        "test".spec_bytes(),
        "--package".spec_bytes(),
        package,
        "--tests".spec_bytes(),
        "--target".spec_bytes(),
        target,
    ] + if json {
        seq!["--message-format=json".spec_bytes(), "--quiet".spec_bytes()]
    } else if !verbose {
        seq!["--quiet".spec_bytes()]
    } else {
        Seq::empty()
    }
}

pub fn test_args_exec(package: &[u8], target: &[u8], json: bool, verbose: bool) -> (r: Vec<Vec<u8>>)
    ensures
        seqs_view(r@) == test_args(package@, target@, json, verbose),
{
    let mut a: Vec<Vec<u8>> = Vec::new();
    assert(seqs_view(a@) =~= Seq::<Seq<u8>>::empty());
    push_lit(&mut a, "test");
    push_lit(&mut a, "--package");
    push_bytes(&mut a, package);
    push_lit(&mut a, "--tests");
    push_lit(&mut a, "--target");
    push_bytes(&mut a, target);
    let ghost a1 = seqs_view(a@);
    if json {
        push_lit(&mut a, "--message-format=json");
        push_lit(&mut a, "--quiet");
    } else if !verbose {
        push_lit(&mut a, "--quiet");
    }
    assert(seqs_view(a@) =~= test_args(package@, target@, json, verbose));
    a
}

/// The start of every clippy run: the configuration's features and cfgs,
/// and the profile.
pub open spec fn clippy_base(config: Configuration, profile: Profile) -> Seq<Seq<u8>> {
    seq!["clippy".spec_bytes()] + clippy_args(config) + if profile == Profile::Release {
        seq!["--release".spec_bytes()]
    } else {
        Seq::empty()
    }
}

/// A clippy invocation carrying the configured cfgs and the build profile.
pub fn clippy_base_exec(config: &Configuration, profile: Profile) -> (r: Vec<Vec<u8>>)
    ensures
        seqs_view(r@) == clippy_base(*config, profile),
{
    let mut a: Vec<Vec<u8>> = Vec::new();
    assert(seqs_view(a@) =~= Seq::<Seq<u8>>::empty());
    push_lit(&mut a, "clippy");
    apply_to_clippy_step(&mut a, config);
    let ghost a1 = seqs_view(a@);
    if profile == Profile::Release {
        push_lit(&mut a, "--release");
    }
    assert(seqs_view(a@) =~= clippy_base(*config, profile));
    a
}

/// Clippy over libs and bins, linted the way the kernel is built: the
/// servers only on aarch64, where they build.
pub open spec fn clippy_workspace_args(arch: Arch, config: Configuration, profile: Profile) -> Seq<Seq<u8>> {
    clippy_base(config, profile) + seq!["--workspace".spec_bytes()] + exclude_others(arch) + (if arch
        != Arch::Aarch64 {
        seq![
            "--exclude".spec_bytes(),
            "console".spec_bytes(),
            "--exclude".spec_bytes(),
            "nameserver".spec_bytes(),
        ]
    } else {
        Seq::empty()
    }) + seq!["--".spec_bytes(), "-Dwarnings".spec_bytes()]
}

pub fn clippy_workspace_args_exec(arch: Arch, config: &Configuration, profile: Profile) -> (r: Vec<Vec<u8>>)
    ensures
        seqs_view(r@) == clippy_workspace_args(arch, *config, profile),
{
    let mut a = clippy_base_exec(config, profile);
    let ghost a0 = seqs_view(a@);
    push_lit(&mut a, "--workspace");
    let ghost a1 = seqs_view(a@);
    exclude_other_arches(arch, &mut a);
    let ghost a2 = seqs_view(a@);
    if arch != Arch::Aarch64 {
        push_lit(&mut a, "--exclude");
        push_lit(&mut a, "console");
        push_lit(&mut a, "--exclude");
        push_lit(&mut a, "nameserver");
    }
    let ghost a3 = seqs_view(a@);
    push_lit(&mut a, "--");
    push_lit(&mut a, "-Dwarnings");
    assert(seqs_view(a@) =~= clippy_workspace_args(arch, *config, profile));
    a
}

/// Clippy over a package's tests and benches (on `target` when given).
pub open spec fn clippy_tests_args(config: Configuration, profile: Profile, package: Seq<u8>, target: Option<Seq<u8>>) -> Seq<
    Seq<u8>,
> {
    clippy_base(config, profile) + seq![
        "--package".spec_bytes(),
        package,
        "--tests".spec_bytes(),
        "--benches".spec_bytes(),
    ] + (match target {
        Some(t) => seq!["--target".spec_bytes(), t],
        None => Seq::empty(),
    }) + seq!["--".spec_bytes(), "-Dwarnings".spec_bytes()]
}

pub fn clippy_tests_args_exec(config: &Configuration, profile: Profile, package: &[u8], target: Option<&[u8]>) -> (r:
    Vec<Vec<u8>>)
    ensures
        seqs_view(r@) == clippy_tests_args(
            *config,
            profile,
            package@,
            match target {
                Some(t) => Some(t@),
                None => None,
            },
        ),
{
    let mut a = clippy_base_exec(config, profile);
    let ghost a0 = seqs_view(a@);
    push_lit(&mut a, "--package");
    push_bytes(&mut a, package);
    push_lit(&mut a, "--tests");
    push_lit(&mut a, "--benches");
    let ghost a1 = seqs_view(a@);
    match target {
        Some(t) => {
            push_lit(&mut a, "--target");
            push_bytes(&mut a, t);
        },
        None => {},
    }
    let ghost a2 = seqs_view(a@);
    push_lit(&mut a, "--");
    push_lit(&mut a, "-Dwarnings");
    assert(seqs_view(a@) =~= clippy_tests_args(
        *config,
        profile,
        package@,
        match target {
            Some(t) => Some(t@),
            None => None,
        },
    ));
    a
}

/// Clippy over one QEMU test image.
pub open spec fn clippy_image_args(config: Configuration, profile: Profile, package: Seq<u8>, name: Seq<u8>) -> Seq<
    Seq<u8>,
> {
    clippy_base(config, profile) + seq![
        "--package".spec_bytes(),
        package,
        "--test".spec_bytes(),
        name,
        "--features".spec_bytes(),
        "qemu-test".spec_bytes(),
        "--".spec_bytes(),
        "-Dwarnings".spec_bytes(),
    ]
}

pub fn clippy_image_args_exec(config: &Configuration, profile: Profile, package: &[u8], name: &[u8]) -> (r: Vec<
    Vec<u8>,
>)
    ensures
        seqs_view(r@) == clippy_image_args(*config, profile, package@, name@),
{
    let mut a = clippy_base_exec(config, profile);
    let ghost a0 = seqs_view(a@);
    push_lit(&mut a, "--package");
    push_bytes(&mut a, package);
    push_lit(&mut a, "--test");
    push_bytes(&mut a, name);
    push_lit(&mut a, "--features");
    push_lit(&mut a, "qemu-test");
    push_lit(&mut a, "--");
    push_lit(&mut a, "-Dwarnings");
    assert(seqs_view(a@) =~= clippy_image_args(*config, profile, package@, name@));
    a
}

/// `cargo build` of one QEMU test image: the configuration, the arch
/// package's test target with the test feature, the profile, build-std,
/// and cargo's JSON messages to learn which file it built.
pub open spec fn image_build_args(config: Configuration, link_dir: Seq<u8>, package: Seq<u8>, name: Seq<u8>, profile: Profile) -> Seq<
    Seq<u8>,
> {
    seq!["build".spec_bytes()] + build_step_args(config, link_dir) + seq![
        "--package".spec_bytes(),
        package,
        "--test".spec_bytes(),
        name,
        "--features".spec_bytes(),
        "qemu-test".spec_bytes(),
    ] + (if profile == Profile::Release {
        seq!["--release".spec_bytes()]
    } else {
        Seq::empty()
    }) + seq![
        "-Z".spec_bytes(),
        "build-std=core,alloc".spec_bytes(),
        "-Z".spec_bytes(),
        "json-target-spec".spec_bytes(),
        "--message-format=json-render-diagnostics".spec_bytes(),
    ]
}

pub fn image_build_args_exec(config: &Configuration, link_dir: &[u8], package: &[u8], name: &[u8], profile: Profile) -> (r:
    Result<(Vec<Vec<u8>>, Option<Vec<u8>>), LinkError>)
    ensures
        match link_script(*config) {
            Err(e) => r == Err::<(Vec<Vec<u8>>, Option<Vec<u8>>), LinkError>(e),
            Ok(s) => r matches Ok((a, o)) && seqs_view(a@) == image_build_args(*config, link_dir@, package@, name@, profile)
                && match (o, s) {
                (Some(x), Some(y)) => x@ == y,
                (None, None) => true,
                _ => false,
            },
        },
{
    let mut a: Vec<Vec<u8>> = Vec::new();
    assert(seqs_view(a@) =~= Seq::<Seq<u8>>::empty());
    push_lit(&mut a, "build");
    let script = match apply_to_build_step(&mut a, config, link_dir) {
        Err(e) => return Err(e),
        Ok(s) => s,
    };
    let ghost a2 = seqs_view(a@);
    push_lit(&mut a, "--package");
    push_bytes(&mut a, package);
    push_lit(&mut a, "--test");
    push_bytes(&mut a, name);
    push_lit(&mut a, "--features");
    push_lit(&mut a, "qemu-test");
    let ghost a3 = seqs_view(a@);
    if profile == Profile::Release {
        push_lit(&mut a, "--release");
    }
    let ghost a4 = seqs_view(a@);
    push_lit(&mut a, "-Z");
    push_lit(&mut a, "build-std=core,alloc");
    push_lit(&mut a, "-Z");
    push_lit(&mut a, "json-target-spec");
    push_lit(&mut a, "--message-format=json-render-diagnostics");
    assert(seqs_view(a@) =~= image_build_args(*config, link_dir@, package@, name@, profile));
    Ok((a, script))
}

/// The first line of `lines[i..]` that starts with `host: `, less that
/// prefix.
pub open spec fn host_from(lines: Seq<Seq<u8>>, i: int) -> Option<Seq<u8>>
    decreases lines.len() - i,
{
    if i < 0 || i >= lines.len() {
        None
    } else if crate::text::occurs_at(lines[i], "host: ".spec_bytes(), 0) {
        Some(lines[i].subrange(6, lines[i].len() as int))
    } else {
        host_from(lines, i + 1)
    }
}

/// The triple rustc runs on, from the output of `rustc -vV`: its `host: `
/// line, or `None` when it reports none.
pub fn host_triple(output: &[u8]) -> (r: Option<Vec<u8>>)
    ensures
        match host_from(lines_of(output@), 0) {
            Some(h) => r matches Some(x) && x@ == h,
            None => r is None,
        },
{
    let ls = lines_exec(output);
    let ghost lv = lines_of(output@);
    let prefix = lit("host: ");
    proof {
        reveal_strlit("host: ");
        vstd::string::is_ascii_spec_bytes("host: ");
        assert("host: ".spec_bytes() =~= seq![104u8, 111, 115, 116, 58, 32]);
    }
    let mut i: usize = 0;
    while i < ls.len()
        invariant
            i <= ls@.len(),
            ls@.len() == lv.len(),
            forall|m: int| 0 <= m < ls@.len() ==> (#[trigger] ls@[m])@ == lv[m],
            prefix@ == "host: ".spec_bytes(),
            prefix@.len() == 6,
            lv == lines_of(output@),
            host_from(lv, i as int) == host_from(lv, 0),
        decreases ls@.len() - i,
    {
        assert(ls@[i as int]@ == lv[i as int]);
        if crate::text::occurs_at_exec(ls[i].as_slice(), prefix.as_slice(), 0) {
            return Some(slice_to_vec(ls[i].as_slice(), 6, ls[i].len()));
        }
        i = i + 1;
    }
    None
}

} // verus!
