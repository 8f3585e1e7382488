//! A task file's front matter: the `---` fenced `key: value` block at the
//! top of the file, its value checks and the error messages they produce.

use vstd::prelude::*;
use vstd::string::StringSliceAdditionalSpecFns;
use crate::bytes::{append_bytes, bytes_eq, lit, slice_to_vec};
use crate::refs::seqs_view;
use crate::tasks::{
    commit_hash_shape, decimal_shape, is_commit_hash, is_decimal, is_task_id, task_id_shape,
};
use crate::text::{
    find_exec, find_from, index_of_byte, index_of_byte_exec, lemma_find_from_bounds, split_on,
    split_on_exec, trim, trim_exec,
};

verus! {

/// `a`, `b` and `c` one after another.
pub fn concat3(a: &[u8], b: &[u8], c: &[u8]) -> (r: Vec<u8>)
    ensures
        r@ == a@ + b@ + c@,
{
    let mut out = slice_to_vec(a, 0, a.len());
    assert(a@.subrange(0, a@.len() as int) =~= a@);
    append_bytes(&mut out, b);
    append_bytes(&mut out, c);
    out
}

/// A lowercase hex digit for `n < 16`.
pub open spec fn hex_digit(n: int) -> u8 {
    if n < 10 {
        (48 + n) as u8
    } else {
        (87 + n) as u8
    }
}

/// How `{:?}` writes one ASCII byte inside a quoted string: `\"`, `\\`,
/// `\t`, `\r`, `\n`, `\0`, other control bytes as `\u{..}` in lowercase
/// hex, and every other byte as itself.
pub open spec fn debug_escape(b: u8) -> Seq<u8> {
    if b == 34 {
        seq![92u8, 34]
    } else if b == 92 {
        seq![92u8, 92]
    } else if b == 9 {
        seq![92u8, 116]
    } else if b == 13 {
        seq![92u8, 114]
    } else if b == 10 {
        seq![92u8, 110]
    } else if b == 0 {
        seq![92u8, 48]
    } else if b < 16 {
        seq![92u8, 117, 123, hex_digit(b as int), 125]
    } else if b < 32 || b == 127 {
        seq![92u8, 117, 123, hex_digit((b / 16) as int), hex_digit((b % 16) as int), 125]
    } else {
        seq![b]
    }
}

pub open spec fn debug_escape_all(s: Seq<u8>) -> Seq<u8>
    decreases s.len(),
{
    if s.len() == 0 {
        Seq::empty()
    } else {
        debug_escape_all(s.drop_last()) + debug_escape(s.last())
    }
}

/// `s` in double quotes, escaped as `{:?}` escapes ASCII.  Bytes of
/// multi-byte characters are copied as they are.
pub open spec fn debug_quoted(s: Seq<u8>) -> Seq<u8> {
    seq![34u8] + debug_escape_all(s) + seq![34u8]
}

fn debug_escape_exec(b: u8) -> (r: Vec<u8>)
    ensures
        r@ == debug_escape(b),
{
    let mut v: Vec<u8> = Vec::new();
    if b == 34 || b == 92 {
        v.push(92);
        v.push(b);
    } else if b == 9 {
        v.push(92);
        v.push(116);
    } else if b == 13 {
        v.push(92);
        v.push(114);
    } else if b == 10 {
        v.push(92);
        v.push(110);
    } else if b == 0 {
        v.push(92);
        v.push(48);
    } else if b < 32 || b == 127 {
        v.push(92);
        v.push(117);
        v.push(123);
        if b >= 16 {
            let hi = b / 16;
            v.push(if hi < 10 { 48 + hi } else { 87 + hi });
        }
        let lo = b % 16;
        v.push(if lo < 10 { 48 + lo } else { 87 + lo });
        v.push(125);
    } else {
        v.push(b);
    }
    assert(v@ =~= debug_escape(b));
    v
}

fn debug_quoted_exec(s: &[u8]) -> (r: Vec<u8>)
    ensures
        r@ == debug_quoted(s@),
{
    let mut out: Vec<u8> = Vec::new();
    out.push(34);
    let mut i: usize = 0;
    while i < s.len()
        invariant
            i <= s@.len(),
            out@ == seq![34u8] + debug_escape_all(s@.subrange(0, i as int)),
        decreases s@.len() - i,
    {
        let e = debug_escape_exec(s[i]);
        append_bytes(&mut out, e.as_slice());
        proof {
            assert(s@.subrange(0, i + 1).drop_last() =~= s@.subrange(0, i as int));
        }
        i = i + 1;
        assert(out@ =~= seq![34u8] + debug_escape_all(s@.subrange(0, i as int)));
    }
    out.push(34);
    assert(s@.subrange(0, s@.len() as int) =~= s@);
    assert(out@ =~= debug_quoted(s@));
    out
}

pub open spec fn msg_no_separator(line: Seq<u8>) -> Seq<u8> {
    "front matter line has no `key: value` separator: ".spec_bytes() + debug_quoted(line)
}

pub open spec fn msg_duplicate_key(key: Seq<u8>) -> Seq<u8> {
    "duplicate front matter key `".spec_bytes() + key + "`".spec_bytes()
}

pub open spec fn msg_unknown_key(key: Seq<u8>) -> Seq<u8> {
    "unknown front matter key `".spec_bytes() + key + "`".spec_bytes()
}

pub open spec fn msg_bad_id(value: Seq<u8>) -> Seq<u8> {
    "`id: ".spec_bytes() + value + "` is not a task id (digits, optionally one letter)".spec_bytes()
}

pub open spec fn msg_bad_status(value: Seq<u8>) -> Seq<u8> {
    "`status: ".spec_bytes() + value + "` is not open, parked or done".spec_bytes()
}

pub open spec fn msg_not_a_number(key: Seq<u8>, value: Seq<u8>) -> Seq<u8> {
    "`".spec_bytes() + key + ": ".spec_bytes() + value + "` is not a number".spec_bytes()
}

pub open spec fn msg_bad_dependency(item: Seq<u8>) -> Seq<u8> {
    "`depends-on` item `".spec_bytes() + item + "` is not a task id".spec_bytes()
}

pub open spec fn msg_bad_commit(value: Seq<u8>) -> Seq<u8> {
    "`commit: ".spec_bytes() + value + "` is not a 7–40 character hex hash".spec_bytes()
}

pub open spec fn msg_no_status() -> Seq<u8> {
    "front matter has no `status:`".spec_bytes()
}

/// The values read so far from a front matter block.
#[verifier::ext_equal]
pub struct FieldsView {
    pub id: Option<Seq<u8>>,
    pub status: Option<Seq<u8>>,
    pub depends_on: Seq<Seq<u8>>,
    pub commit: Option<Seq<u8>>,
    pub seen: Seq<Seq<u8>>,
    pub errors: Seq<Seq<u8>>,
}

pub open spec fn opt_view(o: Option<Vec<u8>>) -> Option<Seq<u8>> {
    match o {
        Some(v) => Some(v@),
        None => None,
    }
}

/// The keys a task file's front matter may carry.
pub open spec fn allowed_key(key: Seq<u8>) -> bool {
    key == "id".spec_bytes() || key == "status".spec_bytes() || key == "wave".spec_bytes() || key
        == "depends-on".spec_bytes() || key == "commit".spec_bytes() || key == "issue".spec_bytes()
}

/// The messages for the items of a `depends-on` list that are not task ids.
pub open spec fn dep_errors(parts: Seq<Seq<u8>>) -> Seq<Seq<u8>>
    decreases parts.len(),
{
    if parts.len() == 0 {
        Seq::empty()
    } else {
        let item = trim(parts.last());
        dep_errors(parts.drop_last()) + if task_id_shape(item) {
            Seq::empty()
        } else {
            seq![msg_bad_dependency(item)]
        }
    }
}

/// The trimmed items of a `depends-on` list.
pub open spec fn dep_items(parts: Seq<Seq<u8>>) -> Seq<Seq<u8>> {
    parts.map_values(|p: Seq<u8>| trim(p))
}

/// The key seen: a second sighting is an error, a first one is remembered.
pub open spec fn fm_key(st: FieldsView, key: Seq<u8>) -> FieldsView {
    if st.seen.contains(key) {
        FieldsView { errors: st.errors.push(msg_duplicate_key(key)), ..st }
    } else {
        FieldsView { seen: st.seen.push(key), ..st }
    }
}

/// What `key: value` does to the values read so far.
#[verifier::opaque]
pub open spec fn fm_value(st: FieldsView, key: Seq<u8>, value: Seq<u8>) -> FieldsView {
    if !allowed_key(key) {
        FieldsView { errors: st.errors.push(msg_unknown_key(key)), ..st }
    } else if key == "id".spec_bytes() {
        FieldsView {
            id: Some(value),
            errors: if task_id_shape(value) {
                st.errors
            } else {
                st.errors.push(msg_bad_id(value))
            },
            ..st
        }
    } else if key == "status".spec_bytes() {
        let ok = value == "open".spec_bytes() || value == "parked".spec_bytes() || value
            == "done".spec_bytes();
        FieldsView {
            status: Some(value),
            errors: if ok {
                st.errors
            } else {
                st.errors.push(msg_bad_status(value))
            },
            ..st
        }
    } else if key == "wave".spec_bytes() || key == "issue".spec_bytes() {
        if decimal_shape(value) {
            st
        } else {
            FieldsView { errors: st.errors.push(msg_not_a_number(key, value)), ..st }
        }
    } else if key == "depends-on".spec_bytes() {
        let parts = split_on(value, 44);
        FieldsView {
            depends_on: st.depends_on + dep_items(parts),
            errors: st.errors + dep_errors(parts),
            ..st
        }
    } else {
        FieldsView {
            commit: Some(value),
            errors: if commit_hash_shape(value) {
                st.errors
            } else {
                st.errors.push(msg_bad_commit(value))
            },
            ..st
        }
    }
}

/// What one line of the block does to the values read so far: a line
/// without `:` is an error; otherwise the trimmed key and value are read.
#[verifier::opaque]
pub open spec fn fm_step(st: FieldsView, line: Seq<u8>) -> FieldsView {
    match index_of_byte(line, 58) {
        None => FieldsView { errors: st.errors.push(msg_no_separator(line)), ..st },
        Some(k) => {
            let key = trim(line.subrange(0, k));
            fm_value(fm_key(st, key), key, trim(line.subrange(k + 1, line.len() as int)))
        },
    }
}

pub open spec fn fields_start() -> FieldsView {
    FieldsView {
        id: None,
        status: None,
        depends_on: Seq::empty(),
        commit: None,
        seen: Seq::empty(),
        errors: Seq::empty(),
    }
}

/// The values read from the block's lines, in order.
pub open spec fn fm_fold(lines: Seq<Seq<u8>>) -> FieldsView
    decreases lines.len(),
{
    if lines.len() == 0 {
        fields_start()
    } else {
        fm_step(fm_fold(lines.drop_last()), lines.last())
    }
}

/// The end of the piece of `text` that starts at `pos`: just after the next
/// `\n`, or the end of the text.
pub open spec fn piece_end(text: Seq<u8>, pos: int) -> int {
    match find_from(text, seq![10u8], pos) {
        Some(n) => n + 1,
        None => text.len() as int,
    }
}

pub proof fn lemma_piece_end(text: Seq<u8>, pos: int)
    requires
        0 <= pos < text.len(),
    ensures
        pos < piece_end(text, pos) <= text.len(),
{
    lemma_find_from_bounds(text, seq![10u8], pos);
}

/// A piece without its final `\n`.
pub open spec fn strip_nl(p: Seq<u8>) -> Seq<u8> {
    if p.len() > 0 && p.last() == 10 {
        p.drop_last()
    } else {
        p
    }
}

/// A `---` fence, whitespace around it allowed.
pub open spec fn is_fence(line: Seq<u8>) -> bool {
    trim(line) == "---".spec_bytes()
}

/// Where the closing fence's piece ends, scanning the pieces from `pos`;
/// `first` marks the file's first piece, which never closes the block.
pub open spec fn fm_close(text: Seq<u8>, pos: int, first: bool) -> Option<int>
    decreases text.len() - pos,
{
    if pos < 0 || pos >= text.len() {
        None
    } else {
        proof {
            lemma_piece_end(text, pos);
        }
        let e = piece_end(text, pos);
        if !first && is_fence(strip_nl(text.subrange(pos, e))) {
            Some(e)
        } else {
            fm_close(text, e, false)
        }
    }
}

/// The block's lines: the pieces after the first and before the closing
/// fence, without their `\n`.
pub open spec fn fm_block(text: Seq<u8>, pos: int, first: bool) -> Seq<Seq<u8>>
    decreases text.len() - pos,
{
    if pos < 0 || pos >= text.len() {
        Seq::empty()
    } else {
        proof {
            lemma_piece_end(text, pos);
        }
        let e = piece_end(text, pos);
        let line = strip_nl(text.subrange(pos, e));
        if !first && is_fence(line) {
            Seq::empty()
        } else {
            (if first {
                Seq::empty()
            } else {
                seq![line]
            }) + fm_block(text, e, false)
        }
    }
}

pub proof fn lemma_fm_close_bound(text: Seq<u8>, pos: int, first: bool)
    ensures
        fm_close(text, pos, first) matches Some(e) ==> pos < e <= text.len(),
    decreases text.len() - pos,
{
    if !(pos < 0 || pos >= text.len()) {
        lemma_piece_end(text, pos);
        lemma_fm_close_bound(text, piece_end(text, pos), false);
    }
}

/// A parsed front matter block, values as read and format errors found.
#[verifier::ext_equal]
pub struct FrontMatterView {
    pub id: Option<Seq<u8>>,
    pub status: Option<Seq<u8>>,
    pub depends_on: Seq<Seq<u8>>,
    pub commit: Option<Seq<u8>>,
    pub body: Seq<u8>,
    pub header_lines: u32,
    pub errors: Seq<Seq<u8>>,
}

/// The front matter of `text`, or `None` when no closing fence follows the
/// first line.
pub open spec fn spec_front_matter(text: Seq<u8>) -> Option<FrontMatterView> {
    if !starts_with_fence(text) {
        None
    } else {
        spec_block_front_matter(text)
    }
}

/// The file's first line, trimmed, is a `---` fence.
pub open spec fn starts_with_fence(text: Seq<u8>) -> bool {
    text.len() > 0 && is_fence(strip_nl(text.subrange(0, piece_end(text, 0))))
}

/// The front matter read from the fence-delimited block after the first
/// line.
pub open spec fn spec_block_front_matter(text: Seq<u8>) -> Option<FrontMatterView> {
    match fm_close(text, 0, true) {
        None => None,
        Some(close_end) => {
            let block = fm_block(text, 0, true);
            let st = fm_fold(block);
            Some(
                FrontMatterView {
                    id: st.id,
                    status: st.status,
                    depends_on: st.depends_on,
                    commit: st.commit,
                    body: text.subrange(close_end, text.len() as int),
                    header_lines: block.len() as u32,
                    errors: if st.status is None {
                        st.errors.push(msg_no_status())
                    } else {
                        st.errors
                    },
                },
            )
        },
    }
}

/// The parsed front matter block.
pub struct FrontMatter {
    pub id: Option<Vec<u8>>,
    pub status: Option<Vec<u8>>,
    pub depends_on: Vec<Vec<u8>>,
    pub commit: Option<Vec<u8>>,
    /// Everything after the closing fence's line.
    pub body: Vec<u8>,
    /// The block's line count, fences excluded: body line numbers plus
    /// this plus two are file line numbers.
    pub header_lines: u32,
    pub errors: Vec<Vec<u8>>,
}

impl View for FrontMatter {
    type V = FrontMatterView;

    open spec fn view(&self) -> FrontMatterView {
        FrontMatterView {
            id: opt_view(self.id),
            status: opt_view(self.status),
            depends_on: seqs_view(self.depends_on@),
            commit: opt_view(self.commit),
            body: self.body@,
            header_lines: self.header_lines,
            errors: seqs_view(self.errors@),
        }
    }
}

struct Fields {
    id: Option<Vec<u8>>,
    status: Option<Vec<u8>>,
    depends_on: Vec<Vec<u8>>,
    commit: Option<Vec<u8>>,
    seen: Vec<Vec<u8>>,
    errors: Vec<Vec<u8>>,
}

impl View for Fields {
    type V = FieldsView;

    closed spec fn view(&self) -> FieldsView {
        FieldsView {
            id: opt_view(self.id),
            status: opt_view(self.status),
            depends_on: seqs_view(self.depends_on@),
            commit: opt_view(self.commit),
            seen: seqs_view(self.seen@),
            errors: seqs_view(self.errors@),
        }
    }
}

proof fn lemma_push_view(v: Seq<Vec<u8>>, x: Vec<u8>)
    ensures
        seqs_view(v.push(x)) == seqs_view(v).push(x@),
{
    assert(seqs_view(v.push(x)) =~= seqs_view(v).push(x@));
}

fn push_msg(errors: &mut Vec<Vec<u8>>, m: Vec<u8>)
    ensures
        seqs_view(final(errors)@) == seqs_view(old(errors)@).push(m@),
{
    proof {
        lemma_push_view(errors@, m);
    }
    errors.push(m);
}

pub fn contains_bytes(list: &Vec<Vec<u8>>, x: &[u8]) -> (r: bool)
    ensures
        r == seqs_view(list@).contains(x@),
{
    let mut i: usize = 0;
    while i < list.len()
        invariant
            i <= list@.len(),
            forall|k: int| 0 <= k < i ==> list@[k]@ != x@,
        decreases list@.len() - i,
    {
        if bytes_eq(list[i].as_slice(), x) {
            assert(seqs_view(list@)[i as int] == x@);
            return true;
        }
        i = i + 1;
    }
    assert forall|k: int| 0 <= k < seqs_view(list@).len() implies seqs_view(list@)[k] != x@ by {
        assert(seqs_view(list@)[k] == list@[k]@);
    }
    false
}

/// One `depends-on` value: its trimmed items and the errors for those
/// that are not task ids.
fn read_depends_on(st: &mut Fields, value: &[u8])
    ensures
        final(st)@ == (FieldsView {
            depends_on: old(st)@.depends_on + dep_items(split_on(value@, 44)),
            errors: old(st)@.errors + dep_errors(split_on(value@, 44)),
            ..old(st)@
        }),
{
    let parts = split_on_exec(value, 44);
    let ghost ps = split_on(value@, 44);
    let ghost d0 = st@.depends_on;
    let ghost e0 = st@.errors;
    let mut i: usize = 0;
    assert(ps.subrange(0, 0) =~= Seq::<Seq<u8>>::empty());
    assert(d0 + dep_items(ps.subrange(0, 0)) =~= d0);
    assert(e0 + dep_errors(ps.subrange(0, 0)) =~= e0);
    while i < parts.len()
        invariant
            i <= parts@.len(),
            parts@.len() == ps.len(),
            forall|k: int| 0 <= k < parts@.len() ==> (#[trigger] parts@[k])@ == ps[k],
            st@ == (FieldsView {
                depends_on: d0 + dep_items(ps.subrange(0, i as int)),
                errors: e0 + dep_errors(ps.subrange(0, i as int)),
                ..old(st)@
            }),
        decreases parts@.len() - i,
    {
        proof {
            assert(ps.subrange(0, i + 1).drop_last() =~= ps.subrange(0, i as int));
            assert(ps.subrange(0, i + 1).last() == ps[i as int]);
        }
        let item = trim_exec(parts[i].as_slice());
        if !is_task_id(item.as_slice()) {
            let m = concat3(lit("`depends-on` item `").as_slice(), item.as_slice(), lit("` is not a task id").as_slice());
            push_msg(&mut st.errors, m);
            assert(e0 + dep_errors(ps.subrange(0, i + 1)) =~= (e0 + dep_errors(ps.subrange(0, i as int))).push(m@));
        } else {
            assert(e0 + dep_errors(ps.subrange(0, i + 1)) =~= e0 + dep_errors(ps.subrange(0, i as int)));
        }
        let ghost iv = item@;
        proof {
            lemma_push_view(st.depends_on@, item);
        }
        st.depends_on.push(item);
        assert(d0 + dep_items(ps.subrange(0, i + 1)) =~= (d0 + dep_items(ps.subrange(0, i as int))).push(iv));
        i = i + 1;
    }
    assert(ps.subrange(0, ps.len() as int) =~= ps);
}

fn read_key(st: &mut Fields, key: &[u8])
    ensures
        final(st)@ == fm_key(old(st)@, key@),
{
    if contains_bytes(&st.seen, key) {
        let m = concat3(lit("duplicate front matter key `").as_slice(), key, lit("`").as_slice());
        push_msg(&mut st.errors, m);
    } else {
        let kc = slice_to_vec(key, 0, key.len());
        assert(key@.subrange(0, key@.len() as int) =~= key@);
        push_msg(&mut st.seen, kc);
    }
}

fn read_value(st: &mut Fields, key: &[u8], value: Vec<u8>)
    ensures
        final(st)@ == fm_value(old(st)@, key@, value@),
{
    reveal(fm_value);
    let is_id = bytes_eq(key, lit("id").as_slice());
    let is_status = bytes_eq(key, lit("status").as_slice());
    let is_wave = bytes_eq(key, lit("wave").as_slice());
    let is_deps = bytes_eq(key, lit("depends-on").as_slice());
    let is_commit = bytes_eq(key, lit("commit").as_slice());
    let is_issue = bytes_eq(key, lit("issue").as_slice());
    if !(is_id || is_status || is_wave || is_deps || is_commit || is_issue) {
        let m = concat3(lit("unknown front matter key `").as_slice(), key, lit("`").as_slice());
        push_msg(&mut st.errors, m);
    } else if is_id {
        if !is_task_id(value.as_slice()) {
            let m = concat3(
                lit("`id: ").as_slice(),
                value.as_slice(),
                lit("` is not a task id (digits, optionally one letter)").as_slice(),
            );
            push_msg(&mut st.errors, m);
        }
        st.id = Some(value);
    } else if is_status {
        let ok = bytes_eq(value.as_slice(), lit("open").as_slice()) || bytes_eq(
            value.as_slice(),
            lit("parked").as_slice(),
        ) || bytes_eq(value.as_slice(), lit("done").as_slice());
        if !ok {
            let m = concat3(
                lit("`status: ").as_slice(),
                value.as_slice(),
                lit("` is not open, parked or done").as_slice(),
            );
            push_msg(&mut st.errors, m);
        }
        st.status = Some(value);
    } else if is_wave || is_issue {
        if !is_decimal(value.as_slice()) {
            let head = concat3(lit("`").as_slice(), key, lit(": ").as_slice());
            let m = concat3(head.as_slice(), value.as_slice(), lit("` is not a number").as_slice());
            assert(m@ =~= msg_not_a_number(key@, value@));
            push_msg(&mut st.errors, m);
        }
    } else if is_deps {
        read_depends_on(st, value.as_slice());
    } else {
        if !is_commit_hash(value.as_slice()) {
            let m = concat3(
                lit("`commit: ").as_slice(),
                value.as_slice(),
                lit("` is not a 7–40 character hex hash").as_slice(),
            );
            push_msg(&mut st.errors, m);
        }
        st.commit = Some(value);
    }
}

/// What one line of the block does to the values read so far.
fn read_line(st: &mut Fields, line: &[u8])
    ensures
        final(st)@ == fm_step(old(st)@, line@),
{
    reveal(fm_step);
    let n = line.len();
    let k = match index_of_byte_exec(line, 58) {
        None => {
            let m = concat3(
                lit("front matter line has no `key: value` separator: ").as_slice(),
                debug_quoted_exec(line).as_slice(),
                &[],
            );
            assert(m@ =~= msg_no_separator(line@));
            push_msg(&mut st.errors, m);
            return;
        },
        Some(k) => k,
    };
    let key = trim_exec(slice_to_vec(line, 0, k).as_slice());
    let value = trim_exec(slice_to_vec(line, k + 1, n).as_slice());
    read_key(st, key.as_slice());
    read_value(st, key.as_slice(), value);
}

/// Whether the file's first line, trimmed, is a `---` fence.
fn first_line_is_fence(text: &[u8]) -> (r: bool)
    ensures
        r == starts_with_fence(text@),
{
    let n = text.len();
    if n == 0 {
        return false;
    }
    let nl: [u8; 1] = [10];
    proof {
        lemma_piece_end(text@, 0);
        lemma_find_from_bounds(text@, seq![10u8], 0);
        assert(nl@ =~= seq![10u8]);
    }
    let e = match find_exec(text, nl.as_slice(), 0) {
        Some(j) => j + 1,
        None => n,
    };
    let raw = slice_to_vec(text, 0, e);
    let line = if raw.len() > 0 && raw[raw.len() - 1] == 10 {
        slice_to_vec(raw.as_slice(), 0, raw.len() - 1)
    } else {
        raw
    };
    assert(line@ =~= strip_nl(text@.subrange(0, e as int)));
    let t = trim_exec(line.as_slice());
    let fence = lit("---");
    bytes_eq(t.as_slice(), fence.as_slice())
}

/// The block's lines and the end of the closing fence's line, or `None`
/// when no line after the first is a fence.
fn scan_block(text: &[u8]) -> (r: Option<(Vec<Vec<u8>>, usize)>)
    ensures
        match fm_close(text@, 0, true) {
            None => r is None,
            Some(e) => r matches Some((b, re)) && re == e && seqs_view(b@) == fm_block(text@, 0, true),
        },
{
    let n = text.len();
    let fence = lit("---");
    let mut pos: usize = 0;
    let mut first = true;
    let mut block: Vec<Vec<u8>> = Vec::new();
    let nl: [u8; 1] = [10];
    assert(seqs_view(block@) + fm_block(text@, 0, true) =~= fm_block(text@, 0, true));
    loop
        invariant
            n == text@.len(),
            pos <= n,
            fence@ == "---".spec_bytes(),
            nl@ == seq![10u8],
            fm_close(text@, pos as int, first) == fm_close(text@, 0, true),
            seqs_view(block@) + fm_block(text@, pos as int, first) == fm_block(text@, 0, true),
        decreases n - pos,
    {
        if pos >= n {
            return None;
        }
        proof {
            lemma_piece_end(text@, pos as int);
            lemma_find_from_bounds(text@, seq![10u8], pos as int);
        }
        let e = match find_exec(text, nl.as_slice(), pos) {
            Some(j) => j + 1,
            None => n,
        };
        let raw = slice_to_vec(text, pos, e);
        let line = if raw.len() > 0 && raw[raw.len() - 1] == 10 {
            slice_to_vec(raw.as_slice(), 0, raw.len() - 1)
        } else {
            raw
        };
        assert(line@ =~= strip_nl(text@.subrange(pos as int, e as int)));
        let t = trim_exec(line.as_slice());
        let ghost before = seqs_view(block@);
        if !first && bytes_eq(t.as_slice(), fence.as_slice()) {
            assert(before + Seq::<Seq<u8>>::empty() =~= before);
            return Some((block, e));
        }
        if !first {
            let ghost lv = line@;
            proof {
                lemma_push_view(block@, line);
            }
            block.push(line);
            assert(before.push(lv) + fm_block(text@, e as int, false) =~= before + (seq![lv]
                + fm_block(text@, e as int, false)));
        } else {
            assert(Seq::<Seq<u8>>::empty() + fm_block(text@, e as int, false) =~= fm_block(
                text@,
                e as int,
                false,
            ));
        }
        pos = e;
        first = false;
    }
}

/// The front matter block of a task file, or `None` when the file does not
/// start with one.  Value formats are checked here, so a malformed value
/// is an error in the result, not a silently wrong reference.
pub fn parse_front_matter(text: &[u8]) -> (r: Option<FrontMatter>)
    ensures
        match spec_front_matter(text@) {
            None => r is None,
            Some(v) => r matches Some(f) && f@ == v,
        },
{
    proof {
        lemma_fm_close_bound(text@, 0, true);
    }
    if !first_line_is_fence(text) {
        return None;
    }
    let (block, close_end) = match scan_block(text) {
        None => return None,
        Some(p) => p,
    };
    let ghost bv = fm_block(text@, 0, true);
    let mut st = Fields {
        id: None,
        status: None,
        depends_on: Vec::new(),
        commit: None,
        seen: Vec::new(),
        errors: Vec::new(),
    };
    assert(seqs_view(st.seen@) =~= Seq::<Seq<u8>>::empty());
    assert(seqs_view(st.errors@) =~= Seq::<Seq<u8>>::empty());
    assert(seqs_view(st.depends_on@) =~= Seq::<Seq<u8>>::empty());
    assert(st@ =~= fields_start());
    let mut i: usize = 0;
    assert(bv.subrange(0, 0) =~= Seq::<Seq<u8>>::empty());
    while i < block.len()
        invariant
            i <= block@.len(),
            seqs_view(block@) == bv,
            st@ == fm_fold(bv.subrange(0, i as int)),
        decreases block@.len() - i,
    {
        proof {
            assert(bv.subrange(0, i + 1).drop_last() =~= bv.subrange(0, i as int));
            assert(bv.subrange(0, i + 1).last() == bv[i as int]);
            assert(bv[i as int] == block@[i as int]@);
        }
        read_line(&mut st, block[i].as_slice());
        i = i + 1;
    }
    assert(bv.subrange(0, bv.len() as int) =~= bv);
    if st.status.is_none() {
        push_msg(&mut st.errors, lit("front matter has no `status:`"));
    }
    let body = slice_to_vec(text, close_end, text.len());
    #[verifier::truncate]
    let header_lines = block.len() as u32;
    Some(
        FrontMatter {
            id: st.id,
            status: st.status,
            depends_on: st.depends_on,
            commit: st.commit,
            body,
            header_lines,
            errors: st.errors,
        },
    )
}

} // verus!
