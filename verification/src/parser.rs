//! Turns one module's source text into its structural record: the
//! module-level doc comment, the publicly declared sub-module names, and
//! the doc-commented structs and enums declared directly in the file.
//!
//! The grammar is line-oriented. A file is split at newlines and each
//! line, after trimming surrounding whitespace, is read as one of: a
//! module doc line (`//!`), an item doc line (`///`), a plain comment, a
//! public module declaration (`pub mod name;` or `pub mod name {`), a
//! public struct or enum header, a member line inside an item body, or
//! anything else. Brace depth is tracked so that declarations inside an
//! inline module body are not taken for declarations of this module.
//! The whole reading is defined by the spec functions below as a fold
//! over the lines; the executable parser is proved to compute it.

use crate::data::enum_models;
use crate::data::struct_models;
use crate::data::AnalyzeError;
use crate::data::Enum;
use crate::data::Module;
use crate::data::SpecItem;
use crate::data::Struct;
use vstd::prelude::*;

verus! {

// ---------------------------------------------------------------- characters
pub open spec fn is_space(c: char) -> bool {
    c == ' ' || c == '\t' || c == '\r'
}

pub open spec fn is_ident_char(c: char) -> bool {
    ||| ('a' as u32) <= (c as u32) && (c as u32) <= ('z' as u32)
    ||| ('A' as u32) <= (c as u32) && (c as u32) <= ('Z' as u32)
    ||| ('0' as u32) <= (c as u32) && (c as u32) <= ('9' as u32)
    ||| c == '_'
}

/// Index of the first newline at or after `i`, or the text length.
pub open spec fn line_end(s: Seq<char>, i: int) -> int
    decreases s.len() - i
        when 0 <= i <= s.len()
{
    if i >= s.len() || s[i] == '\n' {
        i
    } else {
        line_end(s, i + 1)
    }
}

pub proof fn lemma_line_end(s: Seq<char>, i: int)
    requires
        0 <= i <= s.len(),
    ensures
        i <= line_end(s, i) <= s.len(),
    decreases s.len() - i,
{
    if i < s.len() && s[i] != '\n' {
        lemma_line_end(s, i + 1);
    }
}

/// Index of the first non-space character at or after `i`.
pub open spec fn trim_from(l: Seq<char>, i: int) -> int
    decreases l.len() - i
        when 0 <= i <= l.len()
{
    if i >= l.len() {
        i
    } else if is_space(l[i]) {
        trim_from(l, i + 1)
    } else {
        i
    }
}

/// Length of the prefix of `l`'s first `j` characters once trailing
/// spaces are dropped.
pub open spec fn trim_to(l: Seq<char>, j: int) -> int
    decreases j
        when 0 <= j <= l.len()
{
    if j <= 0 {
        0
    } else if is_space(l[j - 1]) {
        trim_to(l, j - 1)
    } else {
        j
    }
}

pub proof fn lemma_trim_to(l: Seq<char>, j: int)
    requires
        0 <= j <= l.len(),
    ensures
        0 <= trim_to(l, j) <= j,
    decreases j,
{
    if j > 0 && is_space(l[j - 1]) {
        lemma_trim_to(l, j - 1);
    }
}

/// The line with surrounding whitespace removed.
pub open spec fn trimmed(l: Seq<char>) -> Seq<char> {
    let a = trim_from(l, 0);
    let b = trim_to(l, l.len() as int);
    if a <= b {
        l.subrange(a, b)
    } else {
        Seq::empty()
    }
}

/// How many times `c` occurs in `l`.
pub open spec fn count_char(l: Seq<char>, c: char) -> int
    decreases l.len(),
{
    if l.len() == 0 {
        0
    } else {
        count_char(l.drop_last(), c) + if l.last() == c {
            1int
        } else {
            0int
        }
    }
}

pub proof fn lemma_count_char_le_len(l: Seq<char>, c: char)
    ensures
        0 <= count_char(l, c) <= l.len(),
    decreases l.len(),
{
    if l.len() > 0 {
        lemma_count_char_le_len(l.drop_last(), c);
    }
}

pub open spec fn has_prefix(l: Seq<char>, p: Seq<char>) -> bool {
    l.len() >= p.len() && l.subrange(0, p.len() as int) == p
}

/// Index of the first non-identifier character at or after `i`.
pub open spec fn ident_end(l: Seq<char>, i: int) -> int
    decreases l.len() - i
        when 0 <= i <= l.len()
{
    if i >= l.len() {
        i
    } else if is_ident_char(l[i]) {
        ident_end(l, i + 1)
    } else {
        i
    }
}

// ------------------------------------------------------------ reading state
/// A struct or enum whose body is still open.
#[verifier::ext_equal]
pub ghost struct PItem {
    pub is_enum: bool,
    pub name: Seq<char>,
    pub doc: Option<Seq<char>>,
    pub members: Seq<Seq<char>>,
}

/// A finished doc-commented item, before its path is attached.
#[verifier::ext_equal]
pub ghost struct RawItem {
    pub name: Seq<char>,
    pub doc: Seq<char>,
    pub members: Seq<Seq<char>>,
}

/// The state of the line-by-line reading.
#[verifier::ext_equal]
pub ghost struct PState {
    pub depth: int,
    pub item: Option<PItem>,
    pub pending: Option<Seq<char>>,
    pub module_doc: Option<Seq<char>>,
    pub decls: Seq<Seq<char>>,
    pub structs: Seq<RawItem>,
    pub enums: Seq<RawItem>,
    pub failed: bool,
}

pub open spec fn init_state() -> PState {
    PState {
        depth: 0,
        item: None,
        pending: None,
        module_doc: None,
        decls: Seq::empty(),
        structs: Seq::empty(),
        enums: Seq::empty(),
        failed: false,
    }
}

pub open spec fn fail(st: PState) -> PState {
    PState { failed: true, ..st }
}

/// Doc lines accumulate separated by a newline.
pub open spec fn doc_join(prev: Option<Seq<char>>, content: Seq<char>) -> Seq<char> {
    match prev {
        None => content,
        Some(d) => d + "\n"@ + content,
    }
}

/// What a `//!` or `///` line contributes: the text after the marker,
/// trimmed.
pub open spec fn doc_content(t: Seq<char>) -> Seq<char> {
    trimmed(t.subrange(3, t.len() as int))
}

/// Records a finished item, but only when it carries a doc comment.
pub open spec fn record(st: PState, is_enum: bool, name: Seq<char>, doc: Option<Seq<char>>, members: Seq<Seq<char>>) -> PState {
    match doc {
        None => st,
        Some(d) => {
            let ri = RawItem { name, doc: d, members };
            if is_enum {
                PState { enums: st.enums.push(ri), ..st }
            } else {
                PState { structs: st.structs.push(ri), ..st }
            }
        },
    }
}

/// A `pub mod` line: the declared name, ended by `;` or by an inline
/// body whose braces are then tracked.
pub open spec fn step_mod(st: PState, t: Seq<char>) -> PState {
    let a = trim_from(t, 8);
    let ie = ident_end(t, a);
    let name = t.subrange(a, ie);
    let tail = trimmed(t.subrange(ie, t.len() as int));
    if name.len() == 0 {
        fail(st)
    } else if tail == seq![';'] {
        PState { decls: st.decls.push(name), pending: None, ..st }
    } else if tail.len() >= 1 && tail[0] == '{' {
        let d = st.depth + count_char(tail, '{') - count_char(tail, '}');
        if d < 0 {
            fail(st)
        } else {
            PState { decls: st.decls.push(name), pending: None, depth: d, ..st }
        }
    } else {
        fail(st)
    }
}

/// A `pub struct` or `pub enum` header line. A body confined to this
/// line yields no members; an open body switches to member collection.
pub open spec fn step_item(st: PState, t: Seq<char>, is_enum: bool, kw: int) -> PState {
    let a = trim_from(t, kw);
    let ie = ident_end(t, a);
    let name = t.subrange(a, ie);
    let tail = t.subrange(ie, t.len() as int);
    let opens = count_char(tail, '{');
    let closes = count_char(tail, '}');
    if name.len() == 0 {
        fail(st)
    } else if opens == 0 {
        if count_char(tail, ';') >= 1 {
            PState { pending: None, ..record(st, is_enum, name, st.pending, Seq::empty()) }
        } else {
            fail(st)
        }
    } else if opens == closes {
        PState { pending: None, ..record(st, is_enum, name, st.pending, Seq::empty()) }
    } else if opens == closes + 1 {
        PState {
            item: Some(PItem { is_enum, name, doc: st.pending, members: Seq::empty() }),
            pending: None,
            depth: 1,
            ..st
        }
    } else {
        fail(st)
    }
}

/// A line while a struct or enum body is open: a member name at depth
/// one, the closing brace, or a line of a nested body.
pub open spec fn step_in_item(st: PState, t: Seq<char>, it: PItem) -> PState {
    if has_prefix(t, "//"@) {
        st
    } else {
        let d = st.depth + count_char(t, '{') - count_char(t, '}');
        if d < 0 {
            fail(st)
        } else if d == 0 {
            PState { item: None, depth: 0, ..record(st, it.is_enum, it.name, it.doc, it.members) }
        } else if st.depth == 1 {
            let ie = ident_end(t, 0);
            let name = t.subrange(0, ie);
            if name.len() > 0 {
                PState {
                    item: Some(PItem { members: it.members.push(name), ..it }),
                    depth: d,
                    ..st
                }
            } else {
                PState { depth: d, ..st }
            }
        } else {
            PState { depth: d, ..st }
        }
    }
}

/// A line inside an inline module body: only brace depth matters.
pub open spec fn step_nested(st: PState, t: Seq<char>) -> PState {
    if has_prefix(t, "//"@) {
        st
    } else {
        let d = st.depth + count_char(t, '{') - count_char(t, '}');
        if d < 0 {
            fail(st)
        } else {
            PState { depth: d, ..st }
        }
    }
}

/// A line of the module's own top level.
pub open spec fn step_top(st: PState, t: Seq<char>) -> PState {
    if t.len() == 0 {
        PState { pending: None, ..st }
    } else if has_prefix(t, "//!"@) {
        PState { module_doc: Some(doc_join(st.module_doc, doc_content(t))), pending: None, ..st }
    } else if has_prefix(t, "///"@) {
        PState { pending: Some(doc_join(st.pending, doc_content(t))), ..st }
    } else if has_prefix(t, "//"@) {
        PState { pending: None, ..st }
    } else if has_prefix(t, "pub mod "@) {
        step_mod(st, t)
    } else if has_prefix(t, "pub struct "@) {
        step_item(st, t, false, 11)
    } else if has_prefix(t, "pub enum "@) {
        step_item(st, t, true, 9)
    } else {
        let d = st.depth + count_char(t, '{') - count_char(t, '}');
        if d < 0 {
            fail(st)
        } else {
            PState { depth: d, pending: None, ..st }
        }
    }
}

/// One trimmed line, dispatched on the current state.
pub open spec fn step_t(st: PState, t: Seq<char>) -> PState {
    match st.item {
        Some(it) => step_in_item(st, t, it),
        None => if st.depth > 0 {
            step_nested(st, t)
        } else {
            step_top(st, t)
        },
    }
}

/// One raw line.
pub open spec fn step(st: PState, raw: Seq<char>) -> PState {
    if st.failed {
        st
    } else {
        step_t(st, trimmed(raw))
    }
}

#[via_fn]
proof fn run_decreases(st: PState, s: Seq<char>, i: int)
{
    if 0 <= i && i < s.len() {
        lemma_line_end(s, i);
    }
}

/// The whole reading: fold `step` over the lines of `s`, starting at `i`.
pub open spec fn run(st: PState, s: Seq<char>, i: int) -> PState
    decreases s.len() + 1 - i
        when 0 <= i
        via run_decreases
{
    if i >= s.len() {
        st
    } else {
        let e = line_end(s, i);
        run(step(st, s.subrange(i, e)), s, e + 1)
    }
}

/// The state after reading a whole text.
pub open spec fn parse_run(s: Seq<char>) -> PState {
    run(init_state(), s, 0)
}

/// A text parses when no line failed and every opened body was closed.
pub open spec fn parse_accepts(s: Seq<char>) -> bool {
    let st = parse_run(s);
    !st.failed && st.depth == 0 && st.item is None
}

/// The module-level doc comment of a text, empty when there is none.
pub open spec fn spec_module_doc(s: Seq<char>) -> Seq<char> {
    match parse_run(s).module_doc {
        None => Seq::empty(),
        Some(d) => d,
    }
}

/// A finished item placed under the module it was declared in.
pub open spec fn item_with_path(prefix: Seq<Seq<char>>, ri: RawItem) -> SpecItem {
    SpecItem { path: prefix.push(ri.name), docstring: ri.doc, members: ri.members }
}

pub proof fn lemma_run_failed(st: PState, s: Seq<char>, i: int)
    requires
        0 <= i,
        st.failed,
    ensures
        run(st, s, i) == st,
    decreases s.len() + 1 - i,
{
    if i < s.len() {
        lemma_line_end(s, i);
        lemma_run_failed(st, s, line_end(s, i) + 1);
    }
}

// ------------------------------------------------------------ exec scanning
/// Relies on String's FromIterator impl: collecting characters builds the
/// string of exactly those characters.
#[verifier::external_body]
fn string_from_chars(cs: &Vec<char>) -> (r: String)
    ensures
        r@ == cs@,
{
    cs.iter().collect()
}


/// Exec form of `is_space`.
fn is_space_c(c: char) -> (b: bool)
    ensures
        b == is_space(c),
{
    c == ' ' || c == '\t' || c == '\r'
}

/// Exec form of `is_ident_char`.
fn is_ident_c(c: char) -> (b: bool)
    ensures
        b == is_ident_char(c),
{
    let u = c as u32;
    (97u32 <= u && u <= 122u32) || (65u32 <= u && u <= 90u32) || (48u32 <= u && u <= 57u32)
        || c == '_'
}

/// The characters of a text, in order.
fn chars_of(text: &str) -> (r: Vec<char>)
    ensures
        r@ == text@,
{
    let n = text.unicode_len();
    let mut r: Vec<char> = Vec::new();
    let mut k: usize = 0;
    while k < n
        invariant
            k <= n,
            n == text@.len(),
            r@ == text@.subrange(0, k as int),
        decreases n - k,
    {
        let c = text.get_char(k);
        r.push(c);
        proof {
            assert(r@ =~= text@.subrange(0, k + 1 as int));
        }
        k += 1;
    }
    proof {
        assert(text@.subrange(0, n as int) =~= text@);
    }
    r
}

/// A copy of the characters in `[a, b)`.
fn subvec(l: &Vec<char>, a: usize, b: usize) -> (r: Vec<char>)
    requires
        a <= b <= l@.len(),
    ensures
        r@ == l@.subrange(a as int, b as int),
{
    let mut r: Vec<char> = Vec::new();
    let mut k: usize = a;
    while k < b
        invariant
            a <= k <= b <= l@.len(),
            r@ == l@.subrange(a as int, k as int),
        decreases b - k,
    {
        r.push(l[k]);
        proof {
            assert(r@ =~= l@.subrange(a as int, k + 1 as int));
        }
        k += 1;
    }
    r
}

/// Where the trimmed form of the line `[i, e)` sits inside it.
fn trim_bounds(l: &Vec<char>, i: usize, e: usize) -> (r: (usize, usize))
    requires
        i <= e <= l@.len(),
    ensures
        i <= r.0 <= r.1 <= e,
        trimmed(l@.subrange(i as int, e as int)) == l@.subrange(r.0 as int, r.1 as int),
{
    let ghost line = l@.subrange(i as int, e as int);
    let mut a: usize = i;
    while a < e && is_space_c(l[a])
        invariant
            i <= a <= e <= l@.len(),
            line == l@.subrange(i as int, e as int),
            trim_from(line, 0) == trim_from(line, a - i),
        decreases e - a,
    {
        proof {
            assert(line[a - i] == l@[a as int]);
        }
        a += 1;
    }
    proof {
        assert(trim_from(line, 0) == a - i);
    }
    let mut b: usize = e;
    while b > a && is_space_c(l[b - 1])
        invariant
            a <= b <= e <= l@.len(),
            i <= a,
            line == l@.subrange(i as int, e as int),
            trim_to(line, e - i) == trim_to(line, b - i),
        decreases b,
    {
        proof {
            assert(line[b - 1 - i] == l@[b - 1]);
        }
        b -= 1;
    }
    proof {
        let tb = trim_to(line, e - i);
        lemma_trim_to(line, e - i);
        if b > a {
            assert(line[b - 1 - i] == l@[b - 1]);
            assert(!is_space(line[b - i - 1]));
            assert(tb == b - i);
            assert(trimmed(line) =~= l@.subrange(a as int, b as int));
        } else {
            // everything after the leading spaces was spaces again: both
            // sides are the empty sequence
            lemma_trim_to(line, a - i);
            assert(tb <= a - i);
            assert(trimmed(line) =~= l@.subrange(a as int, b as int));
        }
    }
    (a, b)
}

/// Whether the line begins with the given pattern.
fn starts_with(l: &Vec<char>, pat: &str) -> (b: bool)
    ensures
        b == has_prefix(l@, pat@),
{
    let n = pat.unicode_len();
    if l.len() < n {
        proof {
            assert(!has_prefix(l@, pat@));
        }
        return false;
    }
    let mut k: usize = 0;
    while k < n
        invariant
            k <= n,
            n == pat@.len(),
            n <= l@.len(),
            forall|j: int| 0 <= j < k ==> l@[j] == pat@[j],
        decreases n - k,
    {
        if l[k] != pat.get_char(k) {
            proof {
                assert(l@.subrange(0, n as int)[k as int] != pat@[k as int]);
            }
            return false;
        }
        k += 1;
    }
    proof {
        assert(l@.subrange(0, n as int) =~= pat@);
    }
    true
}

/// How many times `c` occurs in the line's range `[a, b)`.
fn count_range(l: &Vec<char>, a: usize, b: usize, c: char) -> (r: usize)
    requires
        a <= b <= l@.len(),
    ensures
        r == count_char(l@.subrange(a as int, b as int), c),
{
    let mut r: usize = 0;
    let mut k: usize = a;
    while k < b
        invariant
            a <= k <= b <= l@.len(),
            r == count_char(l@.subrange(a as int, k as int), c),
            r <= k - a,
        decreases b - k,
    {
        proof {
            let pre = l@.subrange(a as int, k + 1 as int);
            assert(pre.drop_last() =~= l@.subrange(a as int, k as int));
            assert(pre.last() == l@[k as int]);
        }
        if l[k] == c {
            r += 1;
        }
        k += 1;
    }
    r
}

/// The first non-space position at or after `from` in the line.
fn trim_from_at(l: &Vec<char>, from: usize) -> (r: usize)
    requires
        from <= l@.len(),
    ensures
        r == trim_from(l@, from as int),
        from <= r <= l@.len(),
{
    let mut k: usize = from;
    while k < l.len() && is_space_c(l[k])
        invariant
            from <= k <= l@.len(),
            trim_from(l@, from as int) == trim_from(l@, k as int),
        decreases l@.len() - k,
    {
        k += 1;
    }
    k
}

/// The first non-identifier position at or after `from` in the line.
fn ident_end_at(l: &Vec<char>, from: usize) -> (r: usize)
    requires
        from <= l@.len(),
    ensures
        r == ident_end(l@, from as int),
        from <= r <= l@.len(),
{
    let mut k: usize = from;
    while k < l.len() && is_ident_c(l[k])
        invariant
            from <= k <= l@.len(),
            ident_end(l@, from as int) == ident_end(l@, k as int),
        decreases l@.len() - k,
    {
        k += 1;
    }
    k
}

// --------------------------------------------------------------- exec state
pub open spec fn opt_str_model(o: Option<String>) -> Option<Seq<char>> {
    match o {
        None => None,
        Some(s) => Some(s@),
    }
}

/// Exec counterpart of `PItem`.
struct ItemAcc {
    is_enum: bool,
    name: String,
    doc: Option<String>,
    members: Vec<String>,
}

impl ItemAcc {
    spec fn model(&self) -> PItem {
        PItem {
            is_enum: self.is_enum,
            name: self.name@,
            doc: opt_str_model(self.doc),
            members: self.members.deep_view(),
        }
    }
}

/// Exec counterpart of `RawItem`.
struct RawRec {
    name: String,
    doc: String,
    members: Vec<String>,
}

impl RawRec {
    spec fn model(&self) -> RawItem {
        RawItem { name: self.name@, doc: self.doc@, members: self.members.deep_view() }
    }
}

spec fn rec_models(v: Seq<RawRec>) -> Seq<RawItem> {
    v.map_values(|r: RawRec| r.model())
}

/// Exec counterpart of `PState`; a failed reading is signalled by the
/// boolean that travels beside it instead of a field.
struct PExec {
    depth: usize,
    item: Option<ItemAcc>,
    pending: Option<String>,
    module_doc: Option<String>,
    decls: Vec<String>,
    structs: Vec<RawRec>,
    enums: Vec<RawRec>,
}

impl PExec {
    spec fn model(&self) -> PState {
        PState {
            depth: self.depth as int,
            item: match self.item {
                None => None,
                Some(it) => Some(it.model()),
            },
            pending: opt_str_model(self.pending),
            module_doc: opt_str_model(self.module_doc),
            decls: self.decls.deep_view(),
            structs: rec_models(self.structs@),
            enums: rec_models(self.enums@),
            failed: false,
        }
    }
}

/// Joins doc lines as `doc_join` does.
fn join_docs(prev: Option<String>, content: String) -> (r: String)
    ensures
        r@ == doc_join(opt_str_model(prev), content@),
{
    match prev {
        None => content,
        Some(mut d) => {
            d.append("\n");
            d.append(content.as_str());
            d
        },
    }
}

/// The contribution of a doc line: everything after the three marker
/// characters, trimmed.
fn doc_slice(line: &Vec<char>) -> (r: String)
    requires
        line@.len() >= 3,
    ensures
        r@ == doc_content(line@),
{
    let (a, b) = trim_bounds(line, 3, line.len());
    let v = subvec(line, a, b);
    string_from_chars(&v)
}

/// One trimmed line of input, applied to the state. The boolean is false
/// exactly when the spec-level reading fails on this line.
fn process_line(st: PExec, line: &Vec<char>) -> (r: (PExec, bool))
    requires
        st.model().depth + line@.len() <= usize::MAX,
    ensures
        r.1 == !step_t(st.model(), line@).failed,
        r.1 ==> r.0.model() == step_t(st.model(), line@),
        r.1 ==> r.0.model().depth <= st.model().depth + line@.len(),
{
    let ghost st0 = st.model();
    proof {
        assert(line@.subrange(0, line@.len() as int) =~= line@);
        lemma_count_char_le_len(line@, '{');
        lemma_count_char_le_len(line@, '}');
    }
    let PExec { mut depth, mut item, mut pending, mut module_doc, mut decls, mut structs, mut enums } =
        st;
    match item {
        Some(it) => {
            if starts_with(line, "//") {
                let r = PExec { depth, item: Some(it), pending, module_doc, decls, structs, enums };
                proof {
                    assert(r.model() =~~= step_t(st0, line@));
                }
                (r, true)
            } else {
                let opens = count_range(line, 0, line.len(), '{');
                let closes = count_range(line, 0, line.len(), '}');
                if closes > depth + opens {
                    let r = PExec {
                        depth,
                        item: Some(it),
                        pending,
                        module_doc,
                        decls,
                        structs,
                        enums,
                    };
                    proof {
                        assert(step_t(st0, line@).failed);
                    }
                    (r, false)
                } else {
                    let d = depth + opens - closes;
                    if d == 0 {
                        let ItemAcc { is_enum, name, doc, members } = it;
                        match doc {
                            None => {
                                let r = PExec {
                                    depth: 0,
                                    item: None,
                                    pending,
                                    module_doc,
                                    decls,
                                    structs,
                                    enums,
                                };
                                proof {
                                    assert(r.model() =~~= step_t(st0, line@));
                                }
                                (r, true)
                            },
                            Some(docstr) => {
                                let rec = RawRec { name, doc: docstr, members };
                                if is_enum {
                                    let ghost olde = enums@;
                                    enums.push(rec);
                                    proof {
                                        assert(rec_models(enums@) =~~= rec_models(olde).push(
                                            rec.model(),
                                        ));
                                    }
                                } else {
                                    let ghost olds = structs@;
                                    structs.push(rec);
                                    proof {
                                        assert(rec_models(structs@) =~~= rec_models(olds).push(
                                            rec.model(),
                                        ));
                                    }
                                }
                                let r = PExec {
                                    depth: 0,
                                    item: None,
                                    pending,
                                    module_doc,
                                    decls,
                                    structs,
                                    enums,
                                };
                                proof {
                                    assert(r.model() =~~= step_t(st0, line@));
                                }
                                (r, true)
                            },
                        }
                    } else if depth == 1 {
                        let ie = ident_end_at(line, 0);
                        let it2 = if ie > 0 {
                            let nm = string_from_chars(&subvec(line, 0, ie));
                            let ItemAcc { is_enum, name, doc, mut members } = it;
                            let ghost oldm = members.deep_view();
                            members.push(nm);
                            proof {
                                assert(members.deep_view() =~~= oldm.push(nm@));
                            }
                            ItemAcc { is_enum, name, doc, members }
                        } else {
                            it
                        };
                        let r = PExec {
                            depth: d,
                            item: Some(it2),
                            pending,
                            module_doc,
                            decls,
                            structs,
                            enums,
                        };
                        proof {
                            assert(r.model() =~~= step_t(st0, line@));
                        }
                        (r, true)
                    } else {
                        let r = PExec {
                            depth: d,
                            item: Some(it),
                            pending,
                            module_doc,
                            decls,
                            structs,
                            enums,
                        };
                        proof {
                            assert(r.model() =~~= step_t(st0, line@));
                        }
                        (r, true)
                    }
                }
            }
        },
        None => {
            if depth > 0 {
                // inside an inline module body: only braces matter
                if starts_with(line, "//") {
                    let r = PExec { depth, item: None, pending, module_doc, decls, structs, enums };
                    proof {
                        assert(r.model() =~~= step_t(st0, line@));
                    }
                    (r, true)
                } else {
                    let opens = count_range(line, 0, line.len(), '{');
                    let closes = count_range(line, 0, line.len(), '}');
                    if closes > depth + opens {
                        let r = PExec {
                            depth,
                            item: None,
                            pending,
                            module_doc,
                            decls,
                            structs,
                            enums,
                        };
                        proof {
                            assert(step_t(st0, line@).failed);
                        }
                        (r, false)
                    } else {
                        let r = PExec {
                            depth: depth + opens - closes,
                            item: None,
                            pending,
                            module_doc,
                            decls,
                            structs,
                            enums,
                        };
                        proof {
                            assert(r.model() =~~= step_t(st0, line@));
                        }
                        (r, true)
                    }
                }
            } else if line.len() == 0 {
                let r = PExec { depth, item: None, pending: None, module_doc, decls, structs, enums };
                proof {
                    assert(r.model() =~~= step_t(st0, line@));
                }
                (r, true)
            } else if starts_with(line, "//!") {
                proof {
                    reveal_strlit("//!");
                }
                let content = doc_slice(line);
                let joined = join_docs(module_doc, content);
                let r = PExec {
                    depth,
                    item: None,
                    pending: None,
                    module_doc: Some(joined),
                    decls,
                    structs,
                    enums,
                };
                proof {
                    assert(r.model() =~~= step_t(st0, line@));
                }
                (r, true)
            } else if starts_with(line, "///") {
                proof {
                    reveal_strlit("///");
                }
                let content = doc_slice(line);
                let joined = join_docs(pending, content);
                let r = PExec {
                    depth,
                    item: None,
                    pending: Some(joined),
                    module_doc,
                    decls,
                    structs,
                    enums,
                };
                proof {
                    assert(r.model() =~~= step_t(st0, line@));
                }
                (r, true)
            } else if starts_with(line, "//") {
                let r = PExec { depth, item: None, pending: None, module_doc, decls, structs, enums };
                proof {
                    assert(r.model() =~~= step_t(st0, line@));
                }
                (r, true)
            } else if starts_with(line, "pub mod ") {
                proof {
                    reveal_strlit("pub mod ");
                }
                let a = trim_from_at(line, 8);
                let ie = ident_end_at(line, a);
                if ie == a {
                    let r = PExec { depth, item: None, pending, module_doc, decls, structs, enums };
                    proof {
                        assert(step_t(st0, line@).failed);
                    }
                    return (r, false);
                }
                let nm = string_from_chars(&subvec(line, a, ie));
                let (ta, tb) = trim_bounds(line, ie, line.len());
                let ghost tail = trimmed(line@.subrange(ie as int, line@.len() as int));
                if tb - ta == 1 && line[ta] == ';' {
                    proof {
                        assert(tail =~= seq![';']);
                    }
                    let ghost oldd = decls.deep_view();
                    decls.push(nm);
                    proof {
                        assert(decls.deep_view() =~~= oldd.push(nm@));
                    }
                    let r = PExec { depth, item: None, pending: None, module_doc, decls, structs, enums };
                    proof {
                        assert(r.model() =~~= step_t(st0, line@));
                    }
                    (r, true)
                } else if tb > ta && line[ta] == '{' {
                    proof {
                        assert(tail[0] == '{');
                        assert(tail != seq![';']) by {
                            assert(seq![';'][0] == ';');
                        }
                        lemma_count_char_le_len(tail, '{');
                    }
                    let opens = count_range(line, ta, tb, '{');
                    let closes = count_range(line, ta, tb, '}');
                    if closes > depth + opens {
                        let r = PExec { depth, item: None, pending, module_doc, decls, structs, enums };
                        proof {
                            assert(step_t(st0, line@).failed);
                        }
                        (r, false)
                    } else {
                        let ghost oldd = decls.deep_view();
                        decls.push(nm);
                        proof {
                            assert(decls.deep_view() =~~= oldd.push(nm@));
                        }
                        let r = PExec {
                            depth: depth + opens - closes,
                            item: None,
                            pending: None,
                            module_doc,
                            decls,
                            structs,
                            enums,
                        };
                        proof {
                            assert(r.model() =~~= step_t(st0, line@));
                        }
                        (r, true)
                    }
                } else {
                    proof {
                        if tail == seq![';'] {
                            assert(tb - ta == 1 && line@[ta as int] == ';');
                        }
                        assert(step_t(st0, line@).failed);
                    }
                    let r = PExec { depth, item: None, pending, module_doc, decls, structs, enums };
                    (r, false)
                }
            } else if starts_with(line, "pub struct ") {
                proof {
                    reveal_strlit("pub struct ");
                }
                item_header(
                    false,
                    11,
                    line,
                    PExec { depth, item: None, pending, module_doc, decls, structs, enums },
                    Ghost(st0),
                )
            } else if starts_with(line, "pub enum ") {
                proof {
                    reveal_strlit("pub enum ");
                }
                item_header(
                    true,
                    9,
                    line,
                    PExec { depth, item: None, pending, module_doc, decls, structs, enums },
                    Ghost(st0),
                )
            } else {
                let opens = count_range(line, 0, line.len(), '{');
                let closes = count_range(line, 0, line.len(), '}');
                if closes > depth + opens {
                    let r = PExec { depth, item: None, pending, module_doc, decls, structs, enums };
                    proof {
                        assert(step_t(st0, line@).failed);
                    }
                    (r, false)
                } else {
                    let r = PExec {
                        depth: depth + opens - closes,
                        item: None,
                        pending: None,
                        module_doc,
                        decls,
                        structs,
                        enums,
                    };
                    proof {
                        assert(r.model() =~~= step_t(st0, line@));
                    }
                    (r, true)
                }
            }
        },
    }
}

/// A `pub struct` or `pub enum` header line at the top level.
fn item_header(is_enum: bool, kw: usize, line: &Vec<char>, st: PExec, Ghost(st0): Ghost<PState>) -> (r:
    (PExec, bool))
    requires
        st.model() == st0,
        st.model().depth == 0,
        st.model().item is None,
        kw as int <= line@.len(),
        step_t(st0, line@) == step_item(st0, line@, is_enum, kw as int),
    ensures
        r.1 == !step_t(st0, line@).failed,
        r.1 ==> r.0.model() == step_t(st0, line@),
        r.1 ==> r.0.model().depth <= st0.depth + line@.len(),
{
    proof {
        lemma_count_char_le_len(line@.subrange(ident_end(line@, trim_from(line@, kw as int)), line@.len() as int), '{');
    }
    let PExec { depth, item, mut pending, module_doc, decls, mut structs, mut enums } = st;
    let a = trim_from_at(line, kw);
    let ie = ident_end_at(line, a);
    if ie == a {
        let r = PExec { depth, item, pending, module_doc, decls, structs, enums };
        proof {
            assert(step_t(st0, line@).failed);
        }
        return (r, false);
    }
    let nm = string_from_chars(&subvec(line, a, ie));
    let opens = count_range(line, ie, line.len(), '{');
    let closes = count_range(line, ie, line.len(), '}');
    let semis = count_range(line, ie, line.len(), ';');
    if opens == 0 || opens == closes {
        if opens == 0 && semis == 0 {
            let r = PExec { depth, item, pending, module_doc, decls, structs, enums };
            proof {
                assert(step_t(st0, line@).failed);
            }
            return (r, false);
        }
        match pending {
            None => {
                let r = PExec { depth, item, pending: None, module_doc, decls, structs, enums };
                proof {
                    assert(r.model() =~~= step_t(st0, line@));
                }
                (r, true)
            },
            Some(docstr) => {
                let rec = RawRec { name: nm, doc: docstr, members: Vec::new() };
                if is_enum {
                    let ghost olde = enums@;
                    enums.push(rec);
                    proof {
                        assert(rec_models(enums@) =~~= rec_models(olde).push(rec.model()));
                    }
                } else {
                    let ghost olds = structs@;
                    structs.push(rec);
                    proof {
                        assert(rec_models(structs@) =~~= rec_models(olds).push(rec.model()));
                    }
                }
                let r = PExec { depth, item, pending: None, module_doc, decls, structs, enums };
                proof {
                    assert(r.model() =~~= step_t(st0, line@));
                }
                (r, true)
            },
        }
    } else if opens >= 1 && opens - 1 == closes {
        let it = ItemAcc { is_enum, name: nm, doc: pending, members: Vec::new() };
        let r = PExec { depth: 1, item: Some(it), pending: None, module_doc, decls, structs, enums };
        proof {
            assert(r.model() =~~= step_t(st0, line@));
        }
        (r, true)
    } else {
        let r = PExec { depth, item, pending, module_doc, decls, structs, enums };
        proof {
            assert(step_t(st0, line@).failed);
        }
        (r, false)
    }
}

/// A copy of a sequence of identifiers.
pub(crate) fn clone_strings(v: &Vec<String>) -> (r: Vec<String>)
    ensures
        r@ == v@,
{
    let mut r: Vec<String> = Vec::new();
    let mut k: usize = 0;
    while k < v.len()
        invariant
            k <= v@.len(),
            r@ == v@.subrange(0, k as int),
        decreases v@.len() - k,
    {
        r.push(v[k].clone());
        proof {
            assert(r@ =~= v@.subrange(0, k + 1 as int));
        }
        k += 1;
    }
    proof {
        assert(v@.subrange(0, v@.len() as int) =~= v@);
    }
    r
}

/// The path of an item declared in the module at `prefix`.
pub(crate) fn path_push(prefix: &Vec<String>, name: &String) -> (r: Vec<String>)
    ensures
        r.deep_view() == prefix.deep_view().push(name@),
{
    let mut r = clone_strings(prefix);
    r.push(name.clone());
    proof {
        assert(r.deep_view() =~~= prefix.deep_view().push(name@));
    }
    r
}

/// Parses one module's text into its structural record. On success the
/// module record carries the given path and exactly the doc comment and
/// declarations that the spec-level reading of the text yields, and each
/// struct and enum carries the path extended by its own name. A text on
/// which the reading fails, or that leaves a brace or an item body open,
/// is rejected.
pub fn parse_module_text(path: &Vec<String>, text: &str) -> (r: Result<
    (Module, Vec<Struct>, Vec<Enum>),
    AnalyzeError,
>)
    ensures
        r is Ok <==> parse_accepts(text@),
        (r matches Ok(out) ==> ({
            let st = parse_run(text@);
            &&& out.0.model().path == path.deep_view()
            &&& out.0.model().docstring == spec_module_doc(text@)
            &&& out.0.model().members == st.decls
            &&& struct_models(out.1@) == st.structs.map_values(
                |ri: RawItem| item_with_path(path.deep_view(), ri),
            )
            &&& enum_models(out.2@) == st.enums.map_values(
                |ri: RawItem| item_with_path(path.deep_view(), ri),
            )
        })),
        r matches Err(e) ==> e is SourceParseError,
{
    let chars = chars_of(text);
    let mut st = PExec {
        depth: 0,
        item: None,
        pending: None,
        module_doc: None,
        decls: Vec::new(),
        structs: Vec::new(),
        enums: Vec::new(),
    };
    proof {
        assert(st.model() =~~= init_state());
    }
    let mut i: usize = 0;
    while i < chars.len()
        invariant
            chars@ == text@,
            run(st.model(), text@, i as int) == parse_run(text@),
            st.model().depth <= i as int,
        decreases chars@.len() - i,
    {
        let ghost st0 = st.model();
        let mut e: usize = i;
        while e < chars.len() && chars[e] != '\n'
            invariant
                i <= e <= chars@.len(),
                chars@ == text@,
                line_end(text@, i as int) == line_end(text@, e as int),
            decreases chars@.len() - e,
        {
            e += 1;
        }
        proof {
            assert(e == line_end(text@, i as int));
        }
        let (a, b) = trim_bounds(&chars, i, e);
        let tline = subvec(&chars, a, b);
        let (st2, ok) = process_line(st, &tline);
        st = st2;
        proof {
            let raw = text@.subrange(i as int, e as int);
            assert(step(st0, raw) == step_t(st0, tline@));
            assert(run(st0, text@, i as int) == run(step(st0, raw), text@, e + 1));
            if !ok {
                lemma_run_failed(step(st0, raw), text@, e + 1);
            }
        }
        if !ok {
            return Err(AnalyzeError::SourceParseError("unreadable line".to_owned()));
        }
        if e < chars.len() {
            i = e + 1;
        } else {
            // the last line had no newline after it: reading is done either way
            proof {
                assert(run(st.model(), text@, e + 1) == st.model());
                assert(run(st.model(), text@, e as int) == st.model());
            }
            i = e;
        }
    }
    let ghost stm = st.model();
    proof {
        assert(parse_run(text@) == stm);
    }
    let PExec { depth, item, pending: _, module_doc, decls, structs, enums } = st;
    if depth != 0 {
        return Err(AnalyzeError::SourceParseError("an opened brace is never closed".to_owned()));
    }
    if item.is_some() {
        return Err(AnalyzeError::SourceParseError("an item body is never closed".to_owned()));
    }
    let docstring = match module_doc {
        None => String::new(),
        Some(d) => d,
    };
    let module = Module { path: clone_strings(path), docstring, declarations: decls };
    proof {
        assert(module.model().path =~~= path.deep_view());
    }
    let mut out_s: Vec<Struct> = Vec::new();
    let mut k: usize = 0;
    while k < structs.len()
        invariant
            k <= structs@.len(),
            out_s@.len() == k as int,
            forall|j: int|
                0 <= j < k ==> out_s@[j].model() == item_with_path(
                    path.deep_view(),
                    structs@[j].model(),
                ),
        decreases structs@.len() - k,
    {
        let rr = &structs[k];
        let s = Struct {
            path: path_push(path, &rr.name),
            docstring: rr.doc.clone(),
            fields: clone_strings(&rr.members),
        };
        proof {
            assert(s.fields.deep_view() =~~= rr.members.deep_view());
            assert(s.model() =~~= item_with_path(path.deep_view(), structs@[k as int].model()));
        }
        out_s.push(s);
        k += 1;
    }
    let mut out_e: Vec<Enum> = Vec::new();
    let mut k2: usize = 0;
    while k2 < enums.len()
        invariant
            k2 <= enums@.len(),
            out_e@.len() == k2 as int,
            forall|j: int|
                0 <= j < k2 ==> out_e@[j].model() == item_with_path(
                    path.deep_view(),
                    enums@[j].model(),
                ),
        decreases enums@.len() - k2,
    {
        let rr = &enums[k2];
        let en = Enum {
            path: path_push(path, &rr.name),
            docstring: rr.doc.clone(),
            variants: clone_strings(&rr.members),
        };
        proof {
            assert(en.variants.deep_view() =~~= rr.members.deep_view());
            assert(en.model() =~~= item_with_path(path.deep_view(), enums@[k2 as int].model()));
        }
        out_e.push(en);
        k2 += 1;
    }
    proof {
        assert(struct_models(out_s@) =~~= stm.structs.map_values(
            |ri: RawItem| item_with_path(path.deep_view(), ri),
        ));
        assert(enum_models(out_e@) =~~= stm.enums.map_values(
            |ri: RawItem| item_with_path(path.deep_view(), ri),
        ));
    }
    Ok((module, out_s, out_e))
}

} // verus!
