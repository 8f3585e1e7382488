//! A build configuration (`config_<name>.toml`) and the command-line
//! arguments it turns into for cargo, clippy and QEMU.
//!
//! Each configured cfg is also declared (`--check-cfg`), so that code
//! guarded by a cfg no configuration sets is a build error rather than
//! silently dead.

use vstd::prelude::*;
use vstd::string::StringSliceAdditionalSpecFns;
use crate::bytes::{append_bytes, bytes_eq, lit, slice_to_vec};
use crate::findings::{join, join_exec};
use crate::frontmatter::concat3;
use crate::refs::{lemma_seqs_view_push, seqs_view};
use crate::text::{find_exec, find_from, index_of_byte, index_of_byte_exec, lemma_find_from_bounds};

verus! {

/// The `[build]` section.
pub struct Build {
    /// Flags added to the cargo command line.
    pub buildflags: Option<Vec<Vec<u8>>>,
    /// Flags for every compiler invocation cargo makes.
    pub rustflags: Option<Vec<Vec<u8>>>,
    /// The target to build for.
    pub target: Vec<u8>,
}

/// The `[config]` section: each list's name prefixes the cfgs it sets
/// (`dev = ['arch']` sets `dev_arch`).
pub struct Config {
    pub dev: Option<Vec<Vec<u8>>>,
    pub features: Option<Vec<Vec<u8>>>,
    pub ip: Option<Vec<Vec<u8>>>,
    pub link: Option<Vec<Vec<u8>>>,
    pub nodev: Option<Vec<Vec<u8>>>,
    pub nouart: Option<Vec<Vec<u8>>>,
    /// The board, set as `platform="<value>"`.
    pub platform: Option<Vec<u8>>,
    /// A DTB file, relative to the crate.
    pub dtb: Option<Vec<u8>>,
}

/// The `[qemu]` section: QEMU arguments only, no effect on the build.
pub struct Qemu {
    /// The machine (`-M`).
    pub machine: Option<Vec<u8>>,
    /// A DTB file (`-dtb`).
    pub dtb: Option<Vec<u8>>,
}

/// A whole configuration file.  `link` is the `[link]` table as its
/// key/value pairs, each key once.
pub struct Configuration {
    pub build: Option<Build>,
    pub config: Option<Config>,
    pub link: Option<Vec<(Vec<u8>, Vec<u8>)>>,
    pub qemu: Option<Qemu>,
}

/// The views of an optional list of byte strings; absent reads as empty.
pub open spec fn list_or_empty(o: Option<Vec<Vec<u8>>>) -> Seq<Seq<u8>> {
    match o {
        Some(v) => seqs_view(v@),
        None => Seq::empty(),
    }
}

/// `s` as a TOML basic string: quoted, with `\` and `"` escaped.
pub open spec fn toml_escape(b: u8) -> Seq<u8> {
    if b == 92 {
        seq![92u8, 92]
    } else if b == 34 {
        seq![92u8, 34]
    } else {
        seq![b]
    }
}

pub open spec fn toml_escape_all(s: Seq<u8>) -> Seq<u8>
    decreases s.len(),
{
    if s.len() == 0 {
        Seq::empty()
    } else {
        toml_escape_all(s.drop_last()) + toml_escape(s.last())
    }
}

pub open spec fn toml_basic_string(s: Seq<u8>) -> Seq<u8> {
    seq![34u8] + toml_escape_all(s) + seq![34u8]
}

/// Render `s` as a TOML basic string, escaping the two characters TOML
/// gives meaning inside one.
pub fn toml_basic_string_exec(s: &[u8]) -> (r: Vec<u8>)
    ensures
        r@ == toml_basic_string(s@),
{
    let mut out: Vec<u8> = Vec::new();
    out.push(34);
    let mut i: usize = 0;
    while i < s.len()
        invariant
            i <= s@.len(),
            out@ == seq![34u8] + toml_escape_all(s@.subrange(0, i as int)),
        decreases s@.len() - i,
    {
        let b = s[i];
        if b == 92 || b == 34 {
            out.push(92);
        }
        out.push(b);
        proof {
            assert(s@.subrange(0, i + 1).drop_last() =~= s@.subrange(0, i as int));
        }
        i = i + 1;
        assert(out@ =~= seq![34u8] + toml_escape_all(s@.subrange(0, i as int)));
    }
    out.push(34);
    assert(s@.subrange(0, s@.len() as int) =~= s@);
    assert(out@ =~= toml_basic_string(s@));
    out
}

/// The `--check-cfg` expression that declares `cfg` (`name` or
/// `name=value`).
pub open spec fn check_cfg(cfg: Seq<u8>) -> Seq<u8> {
    match index_of_byte(cfg, 61) {
        Some(k) => "cfg(".spec_bytes() + cfg.subrange(0, k) + ",values(".spec_bytes() + cfg.subrange(
            k + 1,
            cfg.len() as int,
        ) + "))".spec_bytes(),
        None => "cfg(".spec_bytes() + cfg + ")".spec_bytes(),
    }
}

/// Render `name` or `name="value"` as the matching `--check-cfg` expression.
pub fn check_cfg_exec(cfg: &[u8]) -> (r: Vec<u8>)
    ensures
        r@ == check_cfg(cfg@),
{
    let n = cfg.len();
    match index_of_byte_exec(cfg, 61) {
        Some(k) => {
            let mut r = concat3(lit("cfg(").as_slice(), slice_to_vec(cfg, 0, k).as_slice(), lit(",values(").as_slice());
            append_bytes(&mut r, slice_to_vec(cfg, k + 1, n).as_slice());
            append_bytes(&mut r, lit("))").as_slice());
            r
        },
        None => concat3(lit("cfg(").as_slice(), cfg, lit(")").as_slice()),
    }
}

/// Set a cfg and declare it.
pub open spec fn cfg_flags(cfg: Seq<u8>) -> Seq<Seq<u8>> {
    seq!["--cfg".spec_bytes(), cfg, "--check-cfg".spec_bytes(), check_cfg(cfg)]
}

fn push_arg(v: &mut Vec<Vec<u8>>, x: Vec<u8>)
    ensures
        seqs_view(final(v)@) == seqs_view(old(v)@).push(x@),
{
    proof {
        lemma_seqs_view_push(v@, x);
    }
    v.push(x);
}

fn push_cfg(rustflags: &mut Vec<Vec<u8>>, cfg: Vec<u8>)
    ensures
        seqs_view(final(rustflags)@) == seqs_view(old(rustflags)@) + cfg_flags(cfg@),
{
    let ghost o = seqs_view(rustflags@);
    let ghost c = cfg@;
    let cc = check_cfg_exec(cfg.as_slice());
    push_arg(rustflags, lit("--cfg"));
    push_arg(rustflags, cfg);
    push_arg(rustflags, lit("--check-cfg"));
    push_arg(rustflags, cc);
    assert(seqs_view(rustflags@) =~= o + cfg_flags(c));
}

/// The cfgs of one `[config]` list: `<prefix>_<setting>` for each.
pub open spec fn prefixed_cfgs(prefix: Seq<u8>, settings: Seq<Seq<u8>>) -> Seq<Seq<u8>>
    decreases settings.len(),
{
    if settings.len() == 0 {
        Seq::empty()
    } else {
        prefixed_cfgs(prefix, settings.drop_last()) + cfg_flags(
            prefix + "_".spec_bytes() + settings.last(),
        )
    }
}

fn push_prefixed(rustflags: &mut Vec<Vec<u8>>, prefix: &str, settings: &Option<Vec<Vec<u8>>>)
    ensures
        seqs_view(final(rustflags)@) == seqs_view(old(rustflags)@) + prefixed_cfgs(
            prefix.spec_bytes(),
            list_or_empty(*settings),
        ),
{
    let ghost o = seqs_view(rustflags@);
    let ghost ss = list_or_empty(*settings);
    let p = lit(prefix);
    match settings {
        None => {
            assert(o + prefixed_cfgs(prefix.spec_bytes(), ss) =~= o);
        },
        Some(v) => {
            let mut i: usize = 0;
            assert(ss.subrange(0, 0) =~= Seq::<Seq<u8>>::empty());
            assert(o + prefixed_cfgs(prefix.spec_bytes(), ss.subrange(0, 0)) =~= o);
            while i < v.len()
                invariant
                    i <= v@.len(),
                    ss == seqs_view(v@),
                    p@ == prefix.spec_bytes(),
                    seqs_view(rustflags@) == o + prefixed_cfgs(prefix.spec_bytes(), ss.subrange(0, i as int)),
                decreases v@.len() - i,
            {
                proof {
                    assert(ss.subrange(0, i + 1).drop_last() =~= ss.subrange(0, i as int));
                    assert(ss.subrange(0, i + 1).last() == v@[i as int]@);
                }
                let cfg = concat3(p.as_slice(), lit("_").as_slice(), v[i].as_slice());
                push_cfg(rustflags, cfg);
                i = i + 1;
            }
            assert(ss.subrange(0, ss.len() as int) =~= ss);
        },
    }
}

/// What `[config]` adds: the `--features` argument, and the cfg flags.
pub open spec fn platform_args(config: Configuration) -> Seq<Seq<u8>> {
    match config.config {
        Some(c) => match c.features {
            Some(f) => seq!["--features=".spec_bytes() + join(seqs_view(f@), ",".spec_bytes())],
            None => Seq::empty(),
        },
        None => Seq::empty(),
    }
}

pub open spec fn platform_rustflags(config: Configuration) -> Seq<Seq<u8>> {
    match config.config {
        Some(c) => (match c.platform {
            Some(p) => cfg_flags("platform=\"".spec_bytes() + p@ + "\"".spec_bytes()),
            None => Seq::empty(),
        }) + prefixed_cfgs("dev".spec_bytes(), list_or_empty(c.dev)) + prefixed_cfgs(
            "ip".spec_bytes(),
            list_or_empty(c.ip),
        ) + prefixed_cfgs("link".spec_bytes(), list_or_empty(c.link)) + prefixed_cfgs(
            "nodev".spec_bytes(),
            list_or_empty(c.nodev),
        ) + prefixed_cfgs("nouart".spec_bytes(), list_or_empty(c.nouart)),
        None => Seq::empty(),
    }
}

fn apply_platform_config(args: &mut Vec<Vec<u8>>, rustflags: &mut Vec<Vec<u8>>, config: &Configuration)
    ensures
        seqs_view(final(args)@) == seqs_view(old(args)@) + platform_args(*config),
        seqs_view(final(rustflags)@) == seqs_view(old(rustflags)@) + platform_rustflags(*config),
{
    let ghost a0 = seqs_view(args@);
    let ghost r0 = seqs_view(rustflags@);
    match &config.config {
        None => {
            assert(a0 + Seq::<Seq<u8>>::empty() =~= a0);
            assert(r0 + Seq::<Seq<u8>>::empty() =~= r0);
        },
        Some(c) => {
            match &c.features {
                Some(f) => {
                    let joined = join_exec(f, lit(",").as_slice());
                    push_arg(args, concat3(lit("--features=").as_slice(), joined.as_slice(), &[]));
                    assert(seqs_view(args@) =~= a0 + platform_args(*config));
                },
                None => {
                    assert(a0 + Seq::<Seq<u8>>::empty() =~= a0);
                },
            }
            match &c.platform {
                Some(p) => {
                    push_cfg(rustflags, concat3(lit("platform=\"").as_slice(), p.as_slice(), lit("\"").as_slice()));
                },
                None => {
                    assert(r0 + Seq::<Seq<u8>>::empty() =~= r0);
                },
            }
            let ghost r1 = seqs_view(rustflags@);
            push_prefixed(rustflags, "dev", &c.dev);
            push_prefixed(rustflags, "ip", &c.ip);
            push_prefixed(rustflags, "link", &c.link);
            push_prefixed(rustflags, "nodev", &c.nodev);
            push_prefixed(rustflags, "nouart", &c.nouart);
            assert(seqs_view(rustflags@) =~= r0 + platform_rustflags(*config));
        },
    }
}

/// What `[build]` adds to the command line.
pub open spec fn build_args(config: Configuration) -> Seq<Seq<u8>> {
    match config.build {
        Some(b) => seq!["--target".spec_bytes(), b.target@] + list_or_empty(b.buildflags),
        None => Seq::empty(),
    }
}

/// The rustflags `[build]` asks for.
pub open spec fn build_rustflags(config: Configuration) -> Seq<Seq<u8>> {
    match config.build {
        Some(b) => list_or_empty(b.rustflags),
        None => Seq::empty(),
    }
}

fn copy_list(dst: &mut Vec<Vec<u8>>, src: &Option<Vec<Vec<u8>>>)
    ensures
        seqs_view(final(dst)@) == seqs_view(old(dst)@) + list_or_empty(*src),
{
    let ghost o = seqs_view(dst@);
    match src {
        None => {
            assert(o + Seq::<Seq<u8>>::empty() =~= o);
        },
        Some(v) => {
            let mut i: usize = 0;
            while i < v.len()
                invariant
                    i <= v@.len(),
                    seqs_view(dst@) == o + seqs_view(v@).subrange(0, i as int),
                decreases v@.len() - i,
            {
                let c = slice_to_vec(v[i].as_slice(), 0, v[i].len());
                assert(c@ =~= v@[i as int]@);
                push_arg(dst, c);
                assert(o + seqs_view(v@).subrange(0, i + 1) =~= (o + seqs_view(v@).subrange(0, i as int)).push(
                    v@[i as int]@,
                ));
                i = i + 1;
            }
            assert(seqs_view(v@).subrange(0, v@.len() as int) =~= seqs_view(v@));
        },
    }
}

fn apply_build(args: &mut Vec<Vec<u8>>, rustflags: &mut Vec<Vec<u8>>, config: &Configuration)
    ensures
        seqs_view(final(args)@) == seqs_view(old(args)@) + build_args(*config),
        seqs_view(final(rustflags)@) == seqs_view(old(rustflags)@) + build_rustflags(*config),
{
    let ghost a0 = seqs_view(args@);
    let ghost r0 = seqs_view(rustflags@);
    match &config.build {
        None => {
            assert(a0 + Seq::<Seq<u8>>::empty() =~= a0);
            assert(r0 + Seq::<Seq<u8>>::empty() =~= r0);
        },
        Some(b) => {
            push_arg(args, lit("--target"));
            push_arg(args, slice_to_vec(b.target.as_slice(), 0, b.target.len()));
            assert(b.target@.subrange(0, b.target@.len() as int) =~= b.target@);
            let ghost a1 = seqs_view(args@);
            copy_list(args, &b.buildflags);
            copy_list(rustflags, &b.rustflags);
            assert(seqs_view(args@) =~= a0 + build_args(*config));
        },
    }
}

/// The collected rustflags as one `--config build.rustflags=[...]`, a TOML
/// array: cargo splits a string value at whitespace, which would shear a
/// flag holding a path with a space.
pub open spec fn rustflags_args(rustflags: Seq<Seq<u8>>) -> Seq<Seq<u8>> {
    if rustflags.len() == 0 {
        Seq::empty()
    } else {
        seq![
            "--config".spec_bytes(),
            "build.rustflags=[".spec_bytes() + join(
                rustflags.map_values(|f: Seq<u8>| toml_basic_string(f)),
                ",".spec_bytes(),
            ) + "]".spec_bytes(),
        ]
    }
}

/// The `build.rustflags=[...]` value for `flags`.
pub fn rustflags_value(flags: &Vec<Vec<u8>>) -> (r: Vec<u8>)
    ensures
        r@ == "build.rustflags=[".spec_bytes() + join(
            seqs_view(flags@).map_values(|f: Seq<u8>| toml_basic_string(f)),
            ",".spec_bytes(),
        ) + "]".spec_bytes(),
{
    let ghost fv = seqs_view(flags@);
    let mut quoted: Vec<Vec<u8>> = Vec::new();
    let mut i: usize = 0;
    while i < flags.len()
        invariant
            i <= flags@.len(),
            fv == seqs_view(flags@),
            seqs_view(quoted@) == fv.subrange(0, i as int).map_values(|f: Seq<u8>| toml_basic_string(f)),
        decreases flags@.len() - i,
    {
        push_arg(&mut quoted, toml_basic_string_exec(flags[i].as_slice()));
        assert(fv.subrange(0, i + 1).map_values(|f: Seq<u8>| toml_basic_string(f)) =~= fv.subrange(
            0,
            i as int,
        ).map_values(|f: Seq<u8>| toml_basic_string(f)).push(toml_basic_string(fv[i as int])));
        i = i + 1;
    }
    assert(fv.subrange(0, fv.len() as int) =~= fv);
    let joined = join_exec(&quoted, lit(",").as_slice());
    concat3(lit("build.rustflags=[").as_slice(), joined.as_slice(), lit("]").as_slice())
}

fn apply_rustflags(args: &mut Vec<Vec<u8>>, rustflags: &Vec<Vec<u8>>)
    ensures
        seqs_view(final(args)@) == seqs_view(old(args)@) + rustflags_args(seqs_view(rustflags@)),
{
    let ghost a0 = seqs_view(args@);
    if rustflags.len() > 0 {
        push_arg(args, lit("--config"));
        push_arg(args, rustflags_value(rustflags));
        assert(seqs_view(args@) =~= a0 + rustflags_args(seqs_view(rustflags@)));
    } else {
        assert(a0 + Seq::<Seq<u8>>::empty() =~= a0);
    }
}

/// The arguments a clippy run gets from the configuration.
pub open spec fn clippy_args(config: Configuration) -> Seq<Seq<u8>> {
    platform_args(config) + rustflags_args(platform_rustflags(config))
}

/// Add to `args` what the configuration asks of a clippy run: features and
/// cfgs.
pub fn apply_to_clippy_step(args: &mut Vec<Vec<u8>>, config: &Configuration)
    ensures
        seqs_view(final(args)@) == seqs_view(old(args)@) + clippy_args(*config),
{
    let ghost a0 = seqs_view(args@);
    let mut rustflags: Vec<Vec<u8>> = Vec::new();
    assert(seqs_view(rustflags@) =~= Seq::<Seq<u8>>::empty());
    apply_platform_config(args, &mut rustflags, config);
    assert(seqs_view(rustflags@) =~= platform_rustflags(*config));
    apply_rustflags(args, &rustflags);
    assert(seqs_view(args@) =~= a0 + clippy_args(*config));
}

/// The linker script the `[link]` table names: `Ok(None)` without a table
/// or with an empty name, `Err` when the table has no `script` key.
pub open spec fn link_script(config: Configuration) -> Result<Option<Seq<u8>>, LinkError> {
    match config.link {
        None => Ok(None),
        Some(l) => match lookup(l@, "script".spec_bytes()) {
            None => Err(LinkError::NoScript),
            Some(f) => if f.len() == 0 {
                Ok(None)
            } else {
                Ok(Some(f))
            },
        },
    }
}

/// The value of the first pair with key `k`.
pub open spec fn lookup(pairs: Seq<(Vec<u8>, Vec<u8>)>, k: Seq<u8>) -> Option<Seq<u8>>
    decreases pairs.len(),
{
    if pairs.len() == 0 {
        None
    } else if pairs[0].0@ == k {
        Some(pairs[0].1@)
    } else {
        lookup(pairs.drop_first(), k)
    }
}

/// Why a configuration cannot be built.
#[derive(PartialEq, Eq, Structural, Debug, Clone, Copy)]
pub enum LinkError {
    /// The `[link]` table has no `script` key.
    NoScript,
}

impl LinkError {
    pub fn message(&self) -> (r: Vec<u8>)
        ensures
            r@ == "config [link] table has no 'script' key".spec_bytes(),
    {
        lit("config [link] table has no 'script' key")
    }
}

fn lookup_exec(pairs: &Vec<(Vec<u8>, Vec<u8>)>, k: &[u8]) -> (r: Option<Vec<u8>>)
    ensures
        match lookup(pairs@, k@) {
            Some(v) => r matches Some(x) && x@ == v,
            None => r is None,
        },
{
    let mut i: usize = 0;
    assert(pairs@.subrange(0, pairs@.len() as int) =~= pairs@);
    while i < pairs.len()
        invariant
            i <= pairs@.len(),
            lookup(pairs@.subrange(i as int, pairs@.len() as int), k@) == lookup(pairs@, k@),
        decreases pairs@.len() - i,
    {
        proof {
            let tail = pairs@.subrange(i as int, pairs@.len() as int);
            assert(tail[0] == pairs@[i as int]);
            assert(tail.drop_first() =~= pairs@.subrange(i + 1, pairs@.len() as int));
        }
        if bytes_eq(pairs[i].0.as_slice(), k) {
            let v = slice_to_vec(pairs[i].1.as_slice(), 0, pairs[i].1.len());
            assert(v@ =~= pairs@[i as int].1@);
            return Some(v);
        }
        i = i + 1;
    }
    None
}

/// The flag that hands the linker the script written into `dir`.
pub open spec fn link_flag(dir: Seq<u8>) -> Seq<u8> {
    "-Clink-args=-T".spec_bytes() + dir + "/kernel.ld".spec_bytes()
}

/// The arguments a build gets from the configuration, the linker script
/// (rendered by the caller into `link_dir/kernel.ld`) passed along when
/// there is one.
#[verifier::opaque]
pub open spec fn build_step_args(config: Configuration, link_dir: Seq<u8>) -> Seq<Seq<u8>> {
    let script_flag = match link_script(config) {
        Ok(Some(_)) => seq![link_flag(link_dir)],
        _ => Seq::empty(),
    };
    build_args(config) + platform_args(config) + rustflags_args(
        build_rustflags(config) + platform_rustflags(config) + script_flag,
    )
}

/// Add to `args` what the configuration asks of a build.  Returns the name
/// of the linker script that the caller must render (with
/// [`render_link_script`]) into `link_dir/kernel.ld`, if there is one.
pub fn apply_to_build_step(args: &mut Vec<Vec<u8>>, config: &Configuration, link_dir: &[u8]) -> (r:
    Result<Option<Vec<u8>>, LinkError>)
    ensures
        match link_script(*config) {
            Err(e) => r == Err::<Option<Vec<u8>>, LinkError>(e),
            Ok(s) => {
                &&& r matches Ok(o) && match (o, s) {
                    (Some(x), Some(y)) => x@ == y,
                    (None, None) => true,
                    _ => false,
                }
                &&& seqs_view(final(args)@) == seqs_view(old(args)@) + build_step_args(*config, link_dir@)
            },
        },
{
    reveal(build_step_args);
    let ghost a0 = seqs_view(args@);
    let mut rustflags: Vec<Vec<u8>> = Vec::new();
    assert(seqs_view(rustflags@) =~= Seq::<Seq<u8>>::empty());
    apply_build(args, &mut rustflags, config);
    apply_platform_config(args, &mut rustflags, config);
    let script = match &config.link {
        None => None,
        Some(l) => match lookup_exec(l, lit("script").as_slice()) {
            None => return Err(LinkError::NoScript),
            Some(f) => if f.len() == 0 {
                None
            } else {
                Some(f)
            },
        },
    };
    let ghost r1 = seqs_view(rustflags@);
    if script.is_some() {
        push_arg(&mut rustflags, concat3(lit("-Clink-args=-T").as_slice(), link_dir, lit("/kernel.ld").as_slice()));
    }
    assert(seqs_view(rustflags@) =~= build_rustflags(*config) + platform_rustflags(*config) + match link_script(*config) {
        Ok(Some(_)) => seq![link_flag(link_dir@)],
        _ => Seq::<Seq<u8>>::empty(),
    });
    apply_rustflags(args, &rustflags);
    assert(seqs_view(args@) =~= a0 + build_step_args(*config, link_dir@));
    Ok(script)
}

/// What the configuration asks of QEMU.
pub open spec fn qemu_args(config: Configuration) -> Seq<Seq<u8>> {
    match config.qemu {
        Some(q) => (match q.machine {
            Some(m) => seq!["-M".spec_bytes(), m@],
            None => Seq::empty(),
        }) + (match q.dtb {
            Some(d) => seq!["-dtb".spec_bytes(), d@],
            None => Seq::empty(),
        }),
        None => Seq::empty(),
    }
}

/// Add to `args` what the configuration asks of QEMU: the machine and a DTB.
pub fn apply_to_qemu_step(args: &mut Vec<Vec<u8>>, config: &Configuration)
    ensures
        seqs_view(final(args)@) == seqs_view(old(args)@) + qemu_args(*config),
{
    let ghost a0 = seqs_view(args@);
    match &config.qemu {
        None => {},
        Some(q) => {
            match &q.machine {
                Some(m) => {
                    push_arg(args, lit("-M"));
                    push_arg(args, slice_to_vec(m.as_slice(), 0, m.len()));
                    assert(m@.subrange(0, m@.len() as int) =~= m@);
                },
                None => {},
            }
            let ghost a1 = seqs_view(args@);
            match &q.dtb {
                Some(d) => {
                    push_arg(args, lit("-dtb"));
                    push_arg(args, slice_to_vec(d.as_slice(), 0, d.len()));
                    assert(d@.subrange(0, d@.len() as int) =~= d@);
                },
                None => {},
            }
        },
    }
    assert(seqs_view(args@) =~= a0 + qemu_args(*config));
}

/// `s` with every non-overlapping occurrence of `pat`, left to right,
/// replaced by `with`.
pub open spec fn replace_all(s: Seq<u8>, pat: Seq<u8>, with: Seq<u8>) -> Seq<u8>
    decreases s.len(),
{
    proof {
        lemma_find_from_bounds(s, pat, 0);
    }
    if pat.len() == 0 {
        s
    } else {
        match find_from(s, pat, 0) {
            None => s,
            Some(i) => s.subrange(0, i) + with + replace_all(
                s.subrange(i + pat.len(), s.len() as int),
                pat,
                with,
            ),
        }
    }
}

pub fn replace_all_exec(s: &[u8], pat: &[u8], with: &[u8]) -> (r: Vec<u8>)
    requires
        pat@.len() > 0,
    ensures
        r@ == replace_all(s@, pat@, with@),
{
    let mut out: Vec<u8> = Vec::new();
    let mut rest = slice_to_vec(s, 0, s.len());
    assert(rest@ =~= s@);
    assert(out@ + replace_all(rest@, pat@, with@) =~= replace_all(s@, pat@, with@));
    loop
        invariant
            pat@.len() > 0,
            out@ + replace_all(rest@, pat@, with@) == replace_all(s@, pat@, with@),
        decreases rest@.len(),
    {
        proof {
            lemma_find_from_bounds(rest@, pat@, 0);
        }
        let n = rest.len();
        match find_exec(rest.as_slice(), pat, 0) {
            None => {
                append_bytes(&mut out, rest.as_slice());
                return out;
            },
            Some(i) => {
                let ghost o = out@;
                append_bytes(&mut out, slice_to_vec(rest.as_slice(), 0, i).as_slice());
                append_bytes(&mut out, with);
                let next = slice_to_vec(rest.as_slice(), i + pat.len(), n);
                assert(o + (rest@.subrange(0, i as int) + with@ + replace_all(next@, pat@, with@)) =~= out@
                    + replace_all(next@, pat@, with@));
                rest = next;
            },
        }
    }
}

/// The linker script with the `[link]` placeholders filled in
/// (`${ARCH}`, `${LOAD-ADDRESS}`), taking the pairs in order, and a warning
/// for each key that is neither of those nor `script`.
pub open spec fn render_link_script(contents: Seq<u8>, pairs: Seq<(Vec<u8>, Vec<u8>)>) -> (
    Seq<u8>,
    Seq<Seq<u8>>,
)
    decreases pairs.len(),
{
    if pairs.len() == 0 {
        (contents, Seq::empty())
    } else {
        let prev = render_link_script(contents, pairs.drop_last());
        let (k, v) = (pairs.last().0@, pairs.last().1@);
        if k == "arch".spec_bytes() {
            (replace_all(prev.0, "${ARCH}".spec_bytes(), v), prev.1)
        } else if k == "load-address".spec_bytes() {
            (replace_all(prev.0, "${LOAD-ADDRESS}".spec_bytes(), v), prev.1)
        } else if k == "script".spec_bytes() {
            prev
        } else {
            (
                prev.0,
                prev.1.push(
                    "ignoring unknown option '".spec_bytes() + k + " = ".spec_bytes() + v + "'".spec_bytes(),
                ),
            )
        }
    }
}

/// Fill the placeholders of a linker script from the `[link]` pairs.
/// Returns the script and the warnings for unknown keys.
pub fn render_link_script_exec(contents: &[u8], pairs: &Vec<(Vec<u8>, Vec<u8>)>) -> (r: (
    Vec<u8>,
    Vec<Vec<u8>>,
))
    ensures
        r.0@ == render_link_script(contents@, pairs@).0,
        seqs_view(r.1@) == render_link_script(contents@, pairs@).1,
{
    let mut text = slice_to_vec(contents, 0, contents.len());
    assert(text@ =~= contents@);
    let mut warnings: Vec<Vec<u8>> = Vec::new();
    let mut i: usize = 0;
    assert(pairs@.subrange(0, 0) =~= Seq::<(Vec<u8>, Vec<u8>)>::empty());
    assert(seqs_view(warnings@) =~= Seq::<Seq<u8>>::empty());
    while i < pairs.len()
        invariant
            i <= pairs@.len(),
            text@ == render_link_script(contents@, pairs@.subrange(0, i as int)).0,
            seqs_view(warnings@) == render_link_script(contents@, pairs@.subrange(0, i as int)).1,
        decreases pairs@.len() - i,
    {
        proof {
            assert(pairs@.subrange(0, i + 1).drop_last() =~= pairs@.subrange(0, i as int));
            assert(pairs@.subrange(0, i + 1).last() == pairs@[i as int]);
            reveal_strlit("${ARCH}");
            reveal_strlit("${LOAD-ADDRESS}");
            vstd::string::is_ascii_spec_bytes("${ARCH}");
            vstd::string::is_ascii_spec_bytes("${LOAD-ADDRESS}");
        }
        let k = &pairs[i].0;
        let v = &pairs[i].1;
        if bytes_eq(k.as_slice(), lit("arch").as_slice()) {
            text = replace_all_exec(text.as_slice(), lit("${ARCH}").as_slice(), v.as_slice());
        } else if bytes_eq(k.as_slice(), lit("load-address").as_slice()) {
            text = replace_all_exec(text.as_slice(), lit("${LOAD-ADDRESS}").as_slice(), v.as_slice());
        } else if bytes_eq(k.as_slice(), lit("script").as_slice()) {
        } else {
            let mut w = concat3(lit("ignoring unknown option '").as_slice(), k.as_slice(), lit(" = ").as_slice());
            append_bytes(&mut w, v.as_slice());
            append_bytes(&mut w, lit("'").as_slice());
            push_arg(&mut warnings, w);
        }
        i = i + 1;
    }
    assert(pairs@.subrange(0, pairs@.len() as int) =~= pairs@);
    (text, warnings)
}


/// `flags` sets the cfg `cfg`: `--cfg` directly followed by it.
pub open spec fn sets_cfg(flags: Seq<Seq<u8>>, cfg: Seq<u8>) -> bool {
    exists|j: int| 0 <= j && j + 1 < flags.len() && #[trigger] flags[j] == "--cfg".spec_bytes() && flags[j + 1] == cfg
}

proof fn lemma_sets_cfg_frame(a: Seq<Seq<u8>>, b: Seq<Seq<u8>>, cfg: Seq<u8>)
    ensures
        sets_cfg(a, cfg) ==> sets_cfg(a + b, cfg),
        sets_cfg(b, cfg) ==> sets_cfg(a + b, cfg),
{
    if sets_cfg(a, cfg) {
        let j = choose|j: int| 0 <= j && j + 1 < a.len() && #[trigger] a[j] == "--cfg".spec_bytes() && a[j + 1] == cfg;
        assert((a + b)[j] == a[j]);
        assert((a + b)[j + 1] == a[j + 1]);
    }
    if sets_cfg(b, cfg) {
        let j = choose|j: int| 0 <= j && j + 1 < b.len() && #[trigger] b[j] == "--cfg".spec_bytes() && b[j + 1] == cfg;
        assert((a + b)[a.len() + j] == b[j]);
        assert((a + b)[a.len() + j + 1] == b[j + 1]);
    }
}

/// Each setting of a `[config]` list sets the cfg `<prefix>_<setting>`.
proof fn lemma_prefixed_sets(prefix: Seq<u8>, settings: Seq<Seq<u8>>, s: Seq<u8>)
    requires
        settings.contains(s),
    ensures
        sets_cfg(prefixed_cfgs(prefix, settings), prefix + "_".spec_bytes() + s),
    decreases settings.len(),
{
    let prev = prefixed_cfgs(prefix, settings.drop_last());
    let last = cfg_flags(prefix + "_".spec_bytes() + settings.last());
    if settings.last() == s {
        assert(last[0] == "--cfg".spec_bytes());
        assert(sets_cfg(last, prefix + "_".spec_bytes() + s));
        lemma_sets_cfg_frame(prev, last, prefix + "_".spec_bytes() + s);
    } else {
        let k = choose|k: int| 0 <= k < settings.len() && settings[k] == s;
        assert(settings.drop_last()[k] == s);
        lemma_prefixed_sets(prefix, settings.drop_last(), s);
        lemma_sets_cfg_frame(prev, last, prefix + "_".spec_bytes() + s);
    }
}

/// Every setting `s` of a `[config]` list named `k` (`dev`, `ip`, `link`,
/// `nodev`, `nouart`) sets the cfg `k_s` in the rustflags the configuration
/// gives a build or clippy step: a device listed under `nodev` is set as
/// `nodev_<device>`, under `dev` as `dev_<device>`.
pub proof fn lemma_config_lists_set_their_cfgs(config: Configuration, s: Seq<u8>)
    requires
        config.config is Some,
    ensures
        ({
            let c = config.config->0;
            let flags = platform_rustflags(config);
            &&& list_or_empty(c.dev).contains(s) ==> sets_cfg(flags, "dev".spec_bytes() + "_".spec_bytes() + s)
            &&& list_or_empty(c.ip).contains(s) ==> sets_cfg(flags, "ip".spec_bytes() + "_".spec_bytes() + s)
            &&& list_or_empty(c.link).contains(s) ==> sets_cfg(flags, "link".spec_bytes() + "_".spec_bytes() + s)
            &&& list_or_empty(c.nodev).contains(s) ==> sets_cfg(flags, "nodev".spec_bytes() + "_".spec_bytes() + s)
            &&& list_or_empty(c.nouart).contains(s) ==> sets_cfg(flags, "nouart".spec_bytes() + "_".spec_bytes() + s)
        }),
{
    let c = config.config->0;
    let p0: Seq<Seq<u8>> = match c.platform {
        Some(p) => cfg_flags("platform=\"".spec_bytes() + p@ + "\"".spec_bytes()),
        None => Seq::empty(),
    };
    let d = prefixed_cfgs("dev".spec_bytes(), list_or_empty(c.dev));
    let i = prefixed_cfgs("ip".spec_bytes(), list_or_empty(c.ip));
    let l = prefixed_cfgs("link".spec_bytes(), list_or_empty(c.link));
    let n = prefixed_cfgs("nodev".spec_bytes(), list_or_empty(c.nodev));
    let u = prefixed_cfgs("nouart".spec_bytes(), list_or_empty(c.nouart));
    assert(platform_rustflags(config) == p0 + d + i + l + n + u);
    if list_or_empty(c.dev).contains(s) {
        let cf = "dev".spec_bytes() + "_".spec_bytes() + s;
        lemma_prefixed_sets("dev".spec_bytes(), list_or_empty(c.dev), s);
        lemma_sets_cfg_frame(p0, d, cf);
        lemma_sets_cfg_frame(p0 + d, i, cf);
        lemma_sets_cfg_frame(p0 + d + i, l, cf);
        lemma_sets_cfg_frame(p0 + d + i + l, n, cf);
        lemma_sets_cfg_frame(p0 + d + i + l + n, u, cf);
    }
    if list_or_empty(c.ip).contains(s) {
        let cf = "ip".spec_bytes() + "_".spec_bytes() + s;
        lemma_prefixed_sets("ip".spec_bytes(), list_or_empty(c.ip), s);
        lemma_sets_cfg_frame(p0 + d, i, cf);
        lemma_sets_cfg_frame(p0 + d + i, l, cf);
        lemma_sets_cfg_frame(p0 + d + i + l, n, cf);
        lemma_sets_cfg_frame(p0 + d + i + l + n, u, cf);
    }
    if list_or_empty(c.link).contains(s) {
        let cf = "link".spec_bytes() + "_".spec_bytes() + s;
        lemma_prefixed_sets("link".spec_bytes(), list_or_empty(c.link), s);
        lemma_sets_cfg_frame(p0 + d + i, l, cf);
        lemma_sets_cfg_frame(p0 + d + i + l, n, cf);
        lemma_sets_cfg_frame(p0 + d + i + l + n, u, cf);
    }
    if list_or_empty(c.nodev).contains(s) {
        let cf = "nodev".spec_bytes() + "_".spec_bytes() + s;
        lemma_prefixed_sets("nodev".spec_bytes(), list_or_empty(c.nodev), s);
        lemma_sets_cfg_frame(p0 + d + i + l, n, cf);
        lemma_sets_cfg_frame(p0 + d + i + l + n, u, cf);
    }
    if list_or_empty(c.nouart).contains(s) {
        let cf = "nouart".spec_bytes() + "_".spec_bytes() + s;
        lemma_prefixed_sets("nouart".spec_bytes(), list_or_empty(c.nouart), s);
        lemma_sets_cfg_frame(p0 + d + i + l + n, u, cf);
    }
}

} // verus!
