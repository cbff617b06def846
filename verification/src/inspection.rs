//! The inspection window: the tree of an object, and the code to run in the
//! current frame. It does not talk to the debugger; each gesture answers
//! what has to be asked of the target.
use vstd::prelude::*;
use crate::chars::{chars_of, is_white_space, is_whitespace, push_char, string_from_chars};
use crate::buffer::replaceable;
use crate::debugging::DebugVariableView;
use crate::editor::{ordered, EditorPane};
use crate::text::char_index;
use crate::fmt::{decimal, push_decimal, push_str, str_eq, string_of};
use crate::paths::{text_hash, text_id};

verus! {

// ----------------------------------------------------------------------------
// Trimming and splitting the code to run
/// `s` without the white space at its start.
pub open spec fn trim_start(s: Seq<char>) -> Seq<char>
    decreases s.len(),
{
    if s.len() > 0 && is_white_space(s[0]) {
        trim_start(s.drop_first())
    } else {
        s
    }
}

/// `s` without the white space at its end.
pub open spec fn trim_end(s: Seq<char>) -> Seq<char>
    decreases s.len(),
{
    if s.len() > 0 && is_white_space(s.last()) {
        trim_end(s.drop_last())
    } else {
        s
    }
}

/// `str::trim`: `s` without white space at either end.
pub open spec fn trim(s: Seq<char>) -> Seq<char> {
    trim_end(trim_start(s))
}

pub(crate) proof fn lemma_trim_start_at(s: Seq<char>, a: int)
    requires
        0 <= a <= s.len(),
        forall|k: int| 0 <= k < a ==> is_white_space(s[k]),
        a < s.len() ==> !is_white_space(s[a]),
    ensures
        trim_start(s) == s.subrange(a, s.len() as int),
    decreases a,
{
    if a > 0 {
        lemma_trim_start_at(s.drop_first(), a - 1);
        assert(s.drop_first().subrange(a - 1, s.len() - 1) =~= s.subrange(a, s.len() as int));
    } else {
        assert(s.subrange(0, s.len() as int) =~= s);
    }
}

pub(crate) proof fn lemma_trim_end_at(s: Seq<char>, b: int)
    requires
        0 <= b <= s.len(),
        forall|k: int| b <= k < s.len() ==> is_white_space(s[k]),
        b > 0 ==> !is_white_space(s[b - 1]),
    ensures
        trim_end(s) == s.subrange(0, b),
    decreases s.len() - b,
{
    if b < s.len() {
        lemma_trim_end_at(s.drop_last(), b);
        assert(s.drop_last().subrange(0, b) =~= s.subrange(0, b));
    } else {
        assert(s.subrange(0, s.len() as int) =~= s);
    }
}

/// `str::trim`, as a new string.
pub fn trimmed(s: &str) -> (r: String)
    ensures
        r@ == trim(s@),
{
    let cs = chars_of(s);
    let n = cs.len();
    let mut a: usize = 0;
    while a < n && is_whitespace(cs[a])
        invariant
            n == cs@.len(),
            0 <= a <= n,
            forall|k: int| 0 <= k < a ==> is_white_space(cs@[k]),
        decreases n - a,
    {
        a = a + 1;
    }
    let mut b: usize = n;
    while b > a && is_whitespace(cs[b - 1])
        invariant
            n == cs@.len(),
            0 <= a <= b <= n,
            forall|k: int| b <= k < n ==> is_white_space(cs@[k]),
        decreases b,
    {
        b = b - 1;
    }
    let mut out: Vec<char> = Vec::new();
    let mut i: usize = a;
    while i < b
        invariant
            n == cs@.len(),
            0 <= a <= i <= b <= n,
            out@ == cs@.subrange(a as int, i as int),
        decreases b - i,
    {
        out.push(cs[i]);
        proof {
            assert(cs@.subrange(a as int, i + 1) =~= cs@.subrange(a as int, i as int).push(cs@[i as int]));
        }
        i = i + 1;
    }
    proof {
        let t = cs@.subrange(a as int, n as int);
        lemma_trim_start_at(cs@, a as int);
        if a < b {
            assert forall|k: int| b - a <= k < t.len() implies is_white_space(t[k]) by {
                assert(t[k] == cs@[a + k]);
            }
            assert(t[b - a - 1] == cs@[b - 1]);
            lemma_trim_end_at(t, b - a);
        } else {
            assert forall|k: int| 0 <= k < t.len() implies is_white_space(t[k]) by {
                assert(t[k] == cs@[a + k]);
            }
            lemma_trim_end_at(t, 0);
        }
        assert(t.subrange(0, b - a) =~= cs@.subrange(a as int, b as int));
    }
    string_from_chars(&out)
}

/// Where the scanning of the code to run stands: the statements found, the
/// one being read, whether inside quotes, and whether the last character
/// inside quotes was a backslash.
pub struct Scan {
    pub done: Seq<Seq<char>>,
    pub current: Seq<char>,
    pub quoted: bool,
    pub escaped: bool,
}

/// `;` and line breaks end a statement, except between double quotes, where
/// a backslash keeps the next character from closing them.
pub open spec fn step(st: Scan, c: char) -> Scan {
    if st.quoted {
        Scan {
            done: st.done,
            current: st.current.push(c),
            quoted: if st.escaped {
                true
            } else {
                c != '"'
            },
            escaped: !st.escaped && c == '\\',
        }
    } else if c == '"' {
        Scan { done: st.done, current: st.current.push(c), quoted: true, escaped: st.escaped }
    } else if c == ';' || c == '\n' || c == '\r' {
        Scan {
            done: if trim(st.current).len() > 0 {
                st.done.push(trim(st.current))
            } else {
                st.done
            },
            current: Seq::empty(),
            quoted: false,
            escaped: st.escaped,
        }
    } else {
        Scan { done: st.done, current: st.current.push(c), quoted: false, escaped: st.escaped }
    }
}

/// The scanning of `cs` from the start.
pub open spec fn scan(cs: Seq<char>) -> Scan
    decreases cs.len(),
{
    if cs.len() == 0 {
        Scan { done: Seq::empty(), current: Seq::empty(), quoted: false, escaped: false }
    } else {
        step(scan(cs.drop_last()), cs.last())
    }
}

/// The statements of `cs`, each trimmed, the blank ones left out.
pub open spec fn statements_spec(cs: Seq<char>) -> Seq<Seq<char>> {
    let st = scan(cs);
    if trim(st.current).len() > 0 {
        st.done.push(trim(st.current))
    } else {
        st.done
    }
}

proof fn lemma_trim_start_head(s: Seq<char>)
    ensures
        trim_start(s).len() > 0 ==> !is_white_space(trim_start(s)[0]),
    decreases s.len(),
{
    if s.len() > 0 && is_white_space(s[0]) {
        lemma_trim_start_head(s.drop_first());
    }
}

proof fn lemma_trim_end_prefix(s: Seq<char>)
    ensures
        trim_end(s).len() <= s.len(),
        trim_end(s) == s.take(trim_end(s).len() as int),
        trim_end(s).len() > 0 ==> !is_white_space(trim_end(s).last()),
    decreases s.len(),
{
    if s.len() > 0 && is_white_space(s.last()) {
        lemma_trim_end_prefix(s.drop_last());
        let u = trim_end(s.drop_last());
        assert(s.drop_last().take(u.len() as int) =~= s.take(u.len() as int));
    } else {
        assert(s.take(s.len() as int) =~= s);
    }
}

/// Trimming twice is trimming once.
proof fn lemma_trim_trimmed(s: Seq<char>)
    ensures
        trim(trim(s)) == trim(s),
{
    let v = trim_start(s);
    let u = trim_end(v);
    lemma_trim_start_head(s);
    lemma_trim_end_prefix(v);
    if u.len() > 0 {
        assert(u[0] == v[0]);
        lemma_trim_start_at(u, 0);
        assert(u.subrange(0, u.len() as int) =~= u);
        assert(u[u.len() - 1] == u.last());
        lemma_trim_end_at(u, u.len() as int);
    } else {
        assert(trim_start(u) == u);
        assert(trim_end(u) == u);
    }
}

/// Every statement found so far is trimmed and not blank.
proof fn lemma_scan_statements(cs: Seq<char>)
    ensures
        forall|i: int|
            0 <= i < scan(cs).done.len() ==> (#[trigger] scan(cs).done[i]).len() > 0 && trim(
                scan(cs).done[i],
            ) == scan(cs).done[i],
    decreases cs.len(),
{
    if cs.len() > 0 {
        let st = scan(cs.drop_last());
        lemma_scan_statements(cs.drop_last());
        lemma_trim_trimmed(st.current);
        let nx = step(st, cs.last());
        assert(scan(cs) == nx);
        assert forall|i: int| 0 <= i < nx.done.len() implies (#[trigger] nx.done[i]).len() > 0 && trim(
            nx.done[i],
        ) == nx.done[i] by {
            if i < st.done.len() {
                assert(nx.done[i] == st.done[i]);
            }
        }
    }
}

/// The statements to run are trimmed, and none is blank.
pub proof fn law_statements_are_trimmed_and_never_blank(cs: Seq<char>)
    ensures
        forall|i: int|
            0 <= i < statements_spec(cs).len() ==> (#[trigger] statements_spec(cs)[i]).len() > 0
                && trim(statements_spec(cs)[i]) == statements_spec(cs)[i],
{
    let st = scan(cs);
    lemma_scan_statements(cs);
    lemma_trim_trimmed(st.current);
    assert forall|i: int| 0 <= i < statements_spec(cs).len() implies (#[trigger] statements_spec(cs)[i]).len()
        > 0 && trim(statements_spec(cs)[i]) == statements_spec(cs)[i] by {
        if i < st.done.len() {
            assert(statements_spec(cs)[i] == st.done[i]);
        }
    }
}

/// The texts of a list of strings.
pub open spec fn texts(v: Seq<String>) -> Seq<Seq<char>> {
    v.map_values(|s: String| s@)
}

/// Splits the code to run into its statements: `;` and line breaks end one,
/// but not inside double quotes.
pub fn statements(source: &str) -> (r: Vec<String>)
    ensures
        texts(r@) == statements_spec(source@),
{
    let cs = chars_of(source);
    let mut out: Vec<String> = Vec::new();
    let mut current: Vec<char> = Vec::new();
    let mut quoted = false;
    let mut escaped = false;
    let mut i: usize = 0;
    while i < cs.len()
        invariant
            0 <= i <= cs@.len(),
            cs@ == source@,
            ({
                let st = scan(cs@.take(i as int));
                &&& texts(out@) == st.done
                &&& current@ == st.current
                &&& quoted == st.quoted
                &&& escaped == st.escaped
            }),
        decreases cs@.len() - i,
    {
        let c = cs[i];
        proof {
            assert(cs@.take(i + 1).drop_last() =~= cs@.take(i as int));
        }
        if quoted {
            current.push(c);
            if escaped {
                escaped = false;
            } else if c == '\\' {
                escaped = true;
            } else if c == '"' {
                quoted = false;
            }
        } else if c == '"' {
            quoted = true;
            current.push(c);
        } else if c == ';' || c == '\n' || c == '\r' {
            let text = string_from_chars(&current);
            let t = trimmed(text.as_str());
            if !t.as_str().is_empty() {
                proof {
                    assert(t@.len() > 0);
                }
                let ghost prev = out@;
                out.push(t);
                proof {
                    assert(texts(out@) =~= texts(prev).push(t@)) by {
                        assert(out@ == prev.push(t));
                    }
                }
            } else {
                proof {
                    assert(t@.len() == 0);
                }
            }
            current = Vec::new();
        } else {
            current.push(c);
        }
        i = i + 1;
    }
    proof {
        assert(cs@.take(cs@.len() as int) =~= cs@);
    }
    let text = string_from_chars(&current);
    let t = trimmed(text.as_str());
    if !t.as_str().is_empty() {
        let ghost prev = out@;
        out.push(t);
        proof {
            assert(texts(out@) =~= texts(prev).push(t@)) by {
                assert(out@ == prev.push(t));
            }
        }
    }
    out
}

// ----------------------------------------------------------------------------
// The tree of the object
/// `s` starts with `prefix`.
pub open spec fn starts_with_spec(s: Seq<char>, prefix: Seq<char>) -> bool {
    prefix.len() <= s.len() && s.subrange(0, prefix.len() as int) == prefix
}

/// `str::starts_with` with a string pattern.
pub fn starts_with(s: &str, prefix: &str) -> (r: bool)
    ensures
        r == starts_with_spec(s@, prefix@),
{
    let x = chars_of(s);
    let y = chars_of(prefix);
    if y.len() > x.len() {
        return false;
    }
    let mut i: usize = 0;
    while i < y.len()
        invariant
            x@ == s@,
            y@ == prefix@,
            y@.len() <= x@.len(),
            0 <= i <= y@.len(),
            forall|k: int| 0 <= k < i ==> x@[k] == y@[k],
        decreases y@.len() - i,
    {
        if x[i] != y[i] {
            proof {
                assert(s@.subrange(0, prefix@.len() as int)[i as int] != prefix@[i as int]);
            }
            return false;
        }
        i = i + 1;
    }
    proof {
        assert(s@.subrange(0, prefix@.len() as int) =~= prefix@);
    }
    true
}

/// A node of the inspected object: the path that names it, the variable it
/// shows, the fields read so far, and whether they were read.
#[derive(Debug)]
pub struct InspectionNode {
    pub path: String,
    pub variable: DebugVariableView,
    pub children: Vec<InspectionNode>,
    pub loaded: bool,
}

/// The node named `p` in the tree of `node`: the node itself, or, when `p`
/// starts with its path, the first child (in order) that has it.
pub open spec fn find_spec(node: InspectionNode, p: Seq<char>) -> Option<InspectionNode>
    decreases node, node.children@.len() + 1,
{
    if node.path@ == p {
        Some(node)
    } else if !starts_with_spec(p, node.path@) {
        None
    } else {
        find_from(node, 0, p)
    }
}

/// The node named `p` below the children `i..` of `node`, the first found.
pub open spec fn find_from(node: InspectionNode, i: int, p: Seq<char>) -> Option<InspectionNode>
    decreases node, node.children@.len() - i,
{
    if i < 0 || i >= node.children@.len() {
        None
    } else {
        proof {
            assert(decreases_to!(node => node.children@[i]));
        }
        match find_spec(node.children@[i], p) {
            Some(n) => Some(n),
            None => find_from(node, i + 1, p),
        }
    }
}

/// The first child of `node`, from `i` on, below which the node `p` is.
pub open spec fn first_hit(node: InspectionNode, i: int, p: Seq<char>) -> Option<int>
    decreases node.children@.len() - i,
{
    if i < 0 || i >= node.children@.len() {
        None
    } else if find_spec(node.children@[i], p) is Some {
        Some(i)
    } else {
        first_hit(node, i + 1, p)
    }
}

/// `after` is `before` with the node named `p` replaced by `sub`, nothing
/// else changed. (When there is no such node, `after` is `before`.)
pub open spec fn replaced(before: InspectionNode, after: InspectionNode, p: Seq<char>, sub: InspectionNode) -> bool
    decreases before,
{
    if before.path@ == p {
        after == sub
    } else if !starts_with_spec(p, before.path@) {
        after == before
    } else {
        match first_hit(before, 0, p) {
            Some(k) => {
                &&& 0 <= k < before.children@.len()
                &&& after.path == before.path
                &&& after.variable == before.variable
                &&& after.loaded == before.loaded
                &&& after.children@.len() == before.children@.len()
                &&& forall|j: int| 0 <= j < before.children@.len() && j != k ==> after.children@[j] == before.children@[j]
                &&& {
                    proof {
                        assert(decreases_to!(before => before.children@[k]));
                    }
                    replaced(before.children@[k], after.children@[k], p, sub)
                }
            },
            None => after == before,
        }
    }
}

proof fn lemma_first_hit(node: InspectionNode, i: int, p: Seq<char>)
    requires
        0 <= i,
    ensures
        match first_hit(node, i, p) {
            Some(k) => i <= k < node.children@.len() && find_from(node, i, p) == find_spec(node.children@[k], p)
                && find_spec(node.children@[k], p) is Some,
            None => find_from(node, i, p) is None,
        },
    decreases node.children@.len() - i,
{
    if i < node.children@.len() {
        lemma_first_hit(node, i + 1, p);
    }
}

impl InspectionNode {
    /// A node not read yet.
    pub fn new(path: String, variable: DebugVariableView) -> (r: Self)
        ensures
            r.path == path,
            r.variable == variable,
            r.children@.len() == 0,
            !r.loaded,
    {
        InspectionNode { path, variable, children: Vec::new(), loaded: false }
    }

    /// The node named `path`, searching only where the path leads.
    pub fn find(&self, path: &str) -> (r: Option<&InspectionNode>)
        ensures
            match r {
                Some(n) => find_spec(*self, path@) == Some(*n),
                None => find_spec(*self, path@) is None,
            },
        decreases self,
    {
        if str_eq(self.path.as_str(), path) {
            return Some(self);
        }
        if !starts_with(path, self.path.as_str()) {
            return None;
        }
        let mut i: usize = 0;
        while i < self.children.len()
            invariant
                0 <= i <= self.children@.len(),
                self.path@ != path@,
                starts_with_spec(path@, self.path@),
                find_from(*self, 0, path@) == find_from(*self, i as int, path@),
            decreases self.children@.len() - i,
        {
            proof {
                assert(decreases_to!(*self => self.children@[i as int]));
            }
            match self.children[i].find(path) {
                Some(n) => {
                    return Some(n);
                },
                None => {},
            }
            i = i + 1;
        }
        None
    }

    /// The node named `path`, to change it in place.
    pub fn find_mut(&mut self, path: &str) -> (r: Option<&mut InspectionNode>)
        ensures
            match r {
                Some(n) => find_spec(*old(self), path@) == Some(*n) && replaced(
                    *old(self),
                    *final(self),
                    path@,
                    *final(n),
                ),
                None => find_spec(*old(self), path@) is None && *final(self) == *old(self),
            },
        decreases *old(self),
    {
        if str_eq(self.path.as_str(), path) {
            return Some(self);
        }
        if !starts_with(path, self.path.as_str()) {
            return None;
        }
        let mut i: usize = 0;
        let mut hit: Option<usize> = None;
        while i < self.children.len()
            invariant_except_break
                hit is None,
            invariant
                0 <= i <= self.children@.len(),
                first_hit(*self, 0, path@) == first_hit(*self, i as int, path@),
            ensures
                match hit {
                    Some(k) => k < self.children@.len() && first_hit(*self, 0, path@) == Some(k as int),
                    None => first_hit(*self, 0, path@) is None,
                },
            decreases self.children@.len() - i,
        {
            if self.children[i].find(path).is_some() {
                hit = Some(i);
                break;
            }
            i = i + 1;
        }
        proof {
            lemma_first_hit(*self, 0, path@);
        }
        match hit {
            Some(k) => {
                proof {
                    assert(decreases_to!(*self => self.children@[k as int]));
                }
                self.children[k].find_mut(path)
            },
            None => None,
        }
    }
}

/// `name = (type) value`, or `name = value` when the type is not known.
pub open spec fn variable_label_spec(v: DebugVariableView) -> Seq<char> {
    match v.type_label {
        Some(t) => v.name@ + " = ("@ + t@ + ") "@ + v.value@,
        None => v.name@ + " = "@ + v.value@,
    }
}

/// How an entry of the inspection list reads.
pub fn variable_label(entry: &DebugVariableView) -> (r: String)
    ensures
        r@ == variable_label_spec(*entry),
{
    let mut s = string_of(entry.name.as_str());
    match &entry.type_label {
        Some(t) => {
            push_str(&mut s, " = (");
            push_str(&mut s, t.as_str());
            push_str(&mut s, ") ");
        },
        None => {
            push_str(&mut s, " = ");
        },
    }
    push_str(&mut s, entry.value.as_str());
    s
}

/// The path of the first node, depth first, whose identity is `target`.
pub open spec fn path_of_spec(node: InspectionNode, target: u64) -> Option<Seq<char>>
    decreases node, node.children@.len() + 1,
{
    if text_hash(node.path@) == target {
        Some(node.path@)
    } else {
        path_of_from(node, 0, target)
    }
}

/// The same, below the children `i..` of `node`.
pub open spec fn path_of_from(node: InspectionNode, i: int, target: u64) -> Option<Seq<char>>
    decreases node, node.children@.len() - i,
{
    if i < 0 || i >= node.children@.len() {
        None
    } else {
        proof {
            assert(decreases_to!(node => node.children@[i]));
        }
        match path_of_spec(node.children@[i], target) {
            Some(p) => Some(p),
            None => path_of_from(node, i + 1, target),
        }
    }
}

/// The path of the node with identity `target`, searching depth first.
pub fn path_of(node: &InspectionNode, target: u64) -> (r: Option<String>)
    ensures
        match r {
            Some(p) => path_of_spec(*node, target) == Some(p@),
            None => path_of_spec(*node, target) is None,
        },
    decreases node,
{
    if text_id(node.path.as_str()) == target {
        return Some(node.path.clone());
    }
    let mut i: usize = 0;
    while i < node.children.len()
        invariant
            0 <= i <= node.children@.len(),
            text_hash(node.path@) != target,
            path_of_from(*node, 0, target) == path_of_from(*node, i as int, target),
        decreases node.children@.len() - i,
    {
        proof {
            assert(decreases_to!(*node => node.children@[i as int]));
        }
        match path_of(&node.children[i], target) {
            Some(p) => {
                return Some(p);
            },
            None => {},
        }
        i = i + 1;
    }
    None
}

/// Identity of a node of the tree, derived from its path: the path survives
/// the arrival of new fields, where an index would change.
pub fn id(path: &str) -> (r: u64)
    ensures
        r == text_hash(path@),
{
    text_id(path)
}

// ----------------------------------------------------------------------------
// The window
/// What the window needs asked of the target, or told on the status bar.
#[derive(Debug, PartialEq, Eq)]
pub enum InspectionRequest {
    /// Tell this on the status bar of the main window.
    Status(String),
    /// Evaluate this expression in the current frame.
    Evaluate(String),
    /// Ask for the fields of this path.
    Expand(String),
}

/// Where the keyboard goes inside the window.
#[derive(Clone, Copy, Debug, Eq, PartialEq, Structural)]
pub enum InspectionFocus {
    Tree,
    Source,
}

/// Statements still to run, one at a time: the one running, those after it,
/// and its place among all of them.
#[derive(Debug)]
pub struct InspectionRun {
    pub current: String,
    pub remaining: Vec<String>,
    pub position: usize,
    pub total: usize,
}

/// The open object: the expression, the root of its tree, the paths shown
/// open, and the one highlighted.
#[derive(Debug)]
pub struct InspectionView {
    pub expression: String,
    pub root: InspectionNode,
    pub expanded: Vec<String>,
    pub selected: String,
}

/// The inspection window: whether it shows, the object, the code to run,
/// where the keyboard goes, what it reports, and the run under way.
#[derive(Debug)]
pub struct InspectionSurface {
    pub open: bool,
    pub view: Option<InspectionView>,
    pub source: String,
    pub focus: InspectionFocus,
    pub message: Option<String>,
    pub run: Option<InspectionRun>,
}

/// `s` without the occurrences of `p`.
pub open spec fn without(s: Seq<Seq<char>>, p: Seq<char>) -> Seq<Seq<char>> {
    s.filter(other_than(p))
}

/// Whether a text is not `p`.
pub open spec fn other_than(p: Seq<char>) -> spec_fn(Seq<char>) -> bool {
    |t: Seq<char>| t != p
}

/// No text occurs twice.
pub open spec fn nodup(s: Seq<Seq<char>>) -> bool {
    forall|i: int, j: int| 0 <= i < j < s.len() ==> s[i] != s[j]
}

/// `nodes` are the fields `fields` of the node at `prefix`, each not read yet
/// and named by `prefix.name`.
pub open spec fn field_nodes(prefix: Seq<char>, fields: Seq<DebugVariableView>, nodes: Seq<InspectionNode>) -> bool {
    &&& nodes.len() == fields.len()
    &&& forall|i: int|
        0 <= i < nodes.len() ==> {
            &&& (#[trigger] nodes[i]).path@ == prefix + "."@ + fields[i].name@
            &&& nodes[i].variable == fields[i]
            &&& nodes[i].children@.len() == 0
            &&& !nodes[i].loaded
        }
}

/// The report of a finished run: what the last statement answered, and how
/// many ran when there were several.
pub open spec fn run_done_message(total: nat, expression: Seq<char>, value: Seq<char>) -> Seq<char> {
    if total > 1 {
        decimal(total) + " instruções executadas — "@ + expression + " → "@ + value
    } else {
        expression + " → "@ + value
    }
}

/// The status while statement `position` of `total` runs.
pub open spec fn running_status(next: Seq<char>, position: nat, total: nat) -> Seq<char> {
    "Executando "@ + next + " ("@ + decimal(position) + " de "@ + decimal(total) + ")"@
}

/// The status when a run starts.
pub open spec fn first_status(first: Seq<char>, total: nat) -> Seq<char> {
    if total > 1 {
        "Executando "@ + first + " (1 de "@ + decimal(total) + ")"@
    } else {
        "Executando "@ + first
    }
}

/// The report of a run that stopped at statement `position` of `total`.
pub open spec fn stopped_message(position: nat, total: nat, message: Seq<char>) -> Seq<char> {
    if total > 1 {
        "parou na instrução "@ + decimal(position) + " de "@ + decimal(total) + ": "@ + message
    } else {
        message
    }
}

/// `r` asks to evaluate exactly `e`.
pub open spec fn evaluates(r: Seq<InspectionRequest>, e: Seq<char>) -> bool {
    &&& r.len() == 1
    &&& r[0] matches InspectionRequest::Evaluate(x)
    &&& r[0]->Evaluate_0@ == e
}

/// `r` asks for the fields of exactly the paths `paths`, in order.
pub open spec fn expands(r: Seq<InspectionRequest>, paths: Seq<Seq<char>>) -> bool {
    r.len() == paths.len() && forall|i: int|
        0 <= i < r.len() ==> ((#[trigger] r[i]) matches InspectionRequest::Expand(x) && x@ == paths[i])
}

/// The request that reloads the root of the tree, when there is one.
pub open spec fn reload_spec(view: Option<InspectionView>, r: Seq<InspectionRequest>) -> bool {
    match view {
        Some(v) => evaluates(r, v.expression@),
        None => r.len() == 0,
    }
}

fn field_nodes_of(prefix: &str, fields: Vec<DebugVariableView>) -> (r: Vec<InspectionNode>)
    ensures
        field_nodes(prefix@, fields@, r@),
{
    let ghost all = fields@;
    let mut fields = fields;
    let mut out: Vec<InspectionNode> = Vec::new();
    while fields.len() > 0
        invariant
            out@.len() + fields@.len() == all.len(),
            fields@ == all.skip(out@.len() as int),
            field_nodes(prefix@, all.take(out@.len() as int), out@),
        decreases fields@.len(),
    {
        let ghost k = out@.len() as int;
        let field = fields.remove(0);
        let mut path = string_of(prefix);
        push_str(&mut path, ".");
        push_str(&mut path, field.name.as_str());
        let node = InspectionNode::new(path, field);
        out.push(node);
        proof {
            assert(fields@ =~= all.skip(k + 1));
            assert(field == all[k]);
            assert forall|i: int| 0 <= i < out@.len() implies {
                &&& (#[trigger] out@[i]).path@ == prefix@ + "."@ + all.take(k + 1)[i].name@
                &&& out@[i].variable == all.take(k + 1)[i]
                &&& out@[i].children@.len() == 0
                &&& !out@[i].loaded
            } by {
                if i < k {
                    assert(all.take(k + 1)[i] == all.take(k)[i]);
                }
            }
        }
    }
    proof {
        assert(all.take(all.len() as int) =~= all);
    }
    out
}

fn contains_path(v: &Vec<String>, p: &str) -> (r: bool)
    ensures
        r == texts(v@).contains(p@),
{
    let mut i: usize = 0;
    while i < v.len()
        invariant
            0 <= i <= v@.len(),
            forall|k: int| 0 <= k < i ==> v@[k]@ != p@,
        decreases v@.len() - i,
    {
        if str_eq(v[i].as_str(), p) {
            proof {
                assert(texts(v@)[i as int] == p@);
            }
            return true;
        }
        i = i + 1;
    }
    proof {
        if texts(v@).contains(p@) {
            let k = choose|k: int| 0 <= k < texts(v@).len() && texts(v@)[k] == p@;
            assert(v@[k]@ == p@);
        }
    }
    false
}

fn remove_path(v: &mut Vec<String>, p: &str) -> (r: bool)
    ensures
        r == texts(old(v)@).contains(p@),
        texts(final(v)@) == without(texts(old(v)@), p@),
{
    let ghost all = texts(v@);
    let mut kept: Vec<String> = Vec::new();
    let mut found = false;
    let mut rest: Vec<String> = Vec::new();
    std::mem::swap(&mut rest, v);
    let ghost start = rest@;
    while rest.len() > 0
        invariant
            texts(start) == all,
            rest@ == start.skip(start.len() - rest@.len()),
            rest@.len() <= start.len(),
            texts(kept@) == without(all.take(start.len() - rest@.len()), p@),
            found == all.take(start.len() - rest@.len()).contains(p@),
        decreases rest@.len(),
    {
        let ghost k = start.len() - rest@.len();
        let item = rest.remove(0);
        proof {
            assert(rest@ =~= start.skip(k + 1));
            assert(item@ == all[k]);
            assert(all.take(k + 1) =~= all.take(k).push(item@));
            assert(without(all.take(k).push(item@), p@) == if item@ != p@ {
                without(all.take(k), p@).push(item@)
            } else {
                without(all.take(k), p@)
            }) by {
                reveal(Seq::filter);
                assert(all.take(k).push(item@).drop_last() =~= all.take(k));
            }
        }
        if str_eq(item.as_str(), p) {
            found = true;
            proof {
                assert(all.take(k + 1).contains(p@)) by {
                    assert(all.take(k + 1)[k] == p@);
                }
            }
        } else {
            let ghost prev = kept@;
            kept.push(item);
            proof {
                assert(texts(kept@) =~= texts(prev).push(item@));
                assert(all.take(k + 1).contains(p@) == all.take(k).contains(p@)) by {
                    if all.take(k + 1).contains(p@) {
                        let m = choose|m: int| 0 <= m < k + 1 && #[trigger] all.take(k + 1)[m] == p@;
                        assert(m < k);
                        assert(all.take(k)[m] == p@);
                    }
                    if all.take(k).contains(p@) {
                        let m = choose|m: int| 0 <= m < k && #[trigger] all.take(k)[m] == p@;
                        assert(all.take(k + 1)[m] == p@);
                    }
                }
            }
        }
    }
    proof {
        assert(all.take(all.len() as int) =~= all);
    }
    *v = kept;
    found
}

/// `v` is the view of `e` just evaluated to `value` with `fields`: the root
/// read, highlighted, and open when it has fields.
pub open spec fn shown(v: InspectionView, e: Seq<char>, value: DebugVariableView, fields: Seq<DebugVariableView>) -> bool {
    &&& v.expression@ == e
    &&& v.selected@ == e
    &&& v.root.path@ == e
    &&& v.root.variable == value
    &&& v.root.loaded
    &&& field_nodes(e, fields, v.root.children@)
    &&& texts(v.expanded@) == if fields.len() > 0 {
        seq![e]
    } else {
        Seq::<Seq<char>>::empty()
    }
}

/// The window opens on `e`; the code to run, the focus, the report and the
/// run under way stay.
pub open spec fn show_spec(
    before: InspectionSurface,
    after: InspectionSurface,
    e: Seq<char>,
    value: DebugVariableView,
    fields: Seq<DebugVariableView>,
) -> bool {
    &&& after.open
    &&& after.source == before.source
    &&& after.focus == before.focus
    &&& after.message == before.message
    &&& after.run == before.run
    &&& after.view matches Some(v) && shown(v, e, value, fields)
}

/// New values for the root: what is open and what is highlighted stay, the
/// root's fields are replaced, and every other open path is asked again.
pub open spec fn refresh_spec(
    before: InspectionSurface,
    after: InspectionSurface,
    value: DebugVariableView,
    fields: Seq<DebugVariableView>,
    r: Seq<InspectionRequest>,
) -> bool {
    match before.view {
        None => after == before && r.len() == 0,
        Some(v) => {
            &&& after.open == before.open
            &&& after.source == before.source
            &&& after.focus == before.focus
            &&& after.message == before.message
            &&& after.run == before.run
            &&& after.view matches Some(w) && {
                &&& w.expression == v.expression
                &&& w.expanded == v.expanded
                &&& w.selected == v.selected
                &&& w.root.path == v.root.path
                &&& w.root.variable == value
                &&& w.root.loaded
                &&& field_nodes(v.expression@, fields, w.root.children@)
            }
            &&& expands(r, without(texts(v.expanded@), v.expression@))
        },
    }
}

/// A statement finished: the next one is sent, or the run ends, is
/// reported, and the root is read again.
pub open spec fn advance_spec(
    before: InspectionSurface,
    after: InspectionSurface,
    e: Seq<char>,
    value: Seq<char>,
    r: Seq<InspectionRequest>,
) -> bool {
    match before.run {
        None => after == before && r.len() == 0,
        Some(run) => {
            &&& after.open == before.open
            &&& after.view == before.view
            &&& after.source == before.source
            &&& after.focus == before.focus
            &&& if run.remaining@.len() == 0 {
                &&& after.run is None
                &&& after.message matches Some(m) && m@ == run_done_message(run.total as nat, e, value)
                &&& reload_spec(before.view, r)
            } else {
                let next = run.remaining@[0]@;
                &&& after.message == before.message
                &&& after.run matches Some(n) && {
                    &&& n.current@ == next
                    &&& texts(n.remaining@) == texts(run.remaining@).drop_first()
                    &&& n.position == run.position + 1
                    &&& n.total == run.total
                }
                &&& r.len() == 2
                &&& r[0] matches InspectionRequest::Status(st)
                &&& r[0]->Status_0@ == running_status(next, (run.position + 1) as nat, run.total as nat)
                &&& r[1] matches InspectionRequest::Evaluate(x)
                &&& r[1]->Evaluate_0@ == next
            }
        },
    }
}

impl InspectionSurface {
    /// A run counts its statements: the one running is at `position`, from
    /// one, and those after it make up the total. No open path is kept twice.
    pub open spec fn wf(&self) -> bool {
        &&& (self.run matches Some(r) ==> r.position >= 1 && r.position + r.remaining@.len() == r.total)
        &&& (self.view matches Some(v) ==> nodup(texts(v.expanded@)))
    }

    /// A closed window, with nothing inspected and nothing written.
    pub fn new() -> (r: Self)
        ensures
            r.wf(),
            !r.open,
            r.view is None,
            r.source@.len() == 0,
            r.focus == InspectionFocus::Tree,
            r.message is None,
            r.run is None,
    {
        InspectionSurface {
            open: false,
            view: None,
            source: String::new(),
            focus: InspectionFocus::Tree,
            message: None,
            run: None,
        }
    }

    /// Whether the window shows.
    pub fn is_open(&self) -> (r: bool)
        ensures
            r == self.open,
    {
        self.open
    }

    /// The expression being inspected.
    pub fn expression(&self) -> (r: Option<&str>)
        ensures
            match self.view {
                Some(v) => r matches Some(x) && x@ == v.expression@,
                None => r is None,
            },
    {
        match &self.view {
            Some(v) => Some(v.expression.as_str()),
            None => None,
        }
    }

    /// The code written to run.
    pub fn source_text(&self) -> (r: &str)
        ensures
            r@ == self.source@,
    {
        self.source.as_str()
    }

    /// Replaces the code written to run.
    pub fn set_source(&mut self, text: &str)
        ensures
            final(self).source@ == text@,
            final(self).open == old(self).open,
            final(self).view == old(self).view,
            final(self).focus == old(self).focus,
            final(self).message == old(self).message,
            final(self).run == old(self).run,
    {
        self.source = string_of(text);
    }

    /// What the window reports.
    pub fn message(&self) -> (r: Option<&str>)
        ensures
            match self.message {
                Some(m) => r matches Some(x) && x@ == m@,
                None => r is None,
            },
    {
        match &self.message {
            Some(m) => Some(m.as_str()),
            None => None,
        }
    }

    /// Whether the keyboard goes to the code to run.
    pub fn is_source_focused(&self) -> (r: bool)
        ensures
            r == (self.focus == InspectionFocus::Source),
    {
        self.focus == InspectionFocus::Source
    }

    /// Sends the keyboard to the code to run.
    pub fn focus_source(&mut self)
        ensures
            final(self).focus == InspectionFocus::Source,
            final(self).open == old(self).open,
            final(self).view == old(self).view,
            final(self).source == old(self).source,
            final(self).message == old(self).message,
            final(self).run == old(self).run,
    {
        self.focus = InspectionFocus::Source;
    }

    /// Opens the window on the value of `expression` and its fields.
    pub fn show(&mut self, expression: String, value: DebugVariableView, fields: Vec<DebugVariableView>)
        requires
            old(self).wf(),
        ensures
            final(self).wf(),
            show_spec(*old(self), *final(self), expression@, value, fields@),
    {
        let ghost e = expression@;
        let ghost fs = fields@;
        let children = field_nodes_of(expression.as_str(), fields);
        let has_fields = children.len() > 0;
        let mut root = InspectionNode::new(expression.clone(), value);
        root.loaded = true;
        root.children = children;
        let mut expanded: Vec<String> = Vec::new();
        if has_fields {
            expanded.push(expression.clone());
        }
        proof {
            if has_fields {
                assert(texts(expanded@) =~= seq![e]);
            } else {
                assert(texts(expanded@) =~= Seq::<Seq<char>>::empty());
            }
        }
        self.open = true;
        self.view = Some(InspectionView { selected: expression.clone(), expression, root, expanded });
    }

    /// Asks the debugger for the current value of the root of the tree.
    pub fn reload(&self) -> (r: Vec<InspectionRequest>)
        ensures
            reload_spec(self.view, r@),
    {
        match &self.view {
            Some(v) => {
                let mut r: Vec<InspectionRequest> = Vec::new();
                r.push(InspectionRequest::Evaluate(v.expression.clone()));
                r
            },
            None => Vec::new(),
        }
    }

    /// Replaces the values of the tree, keeping what is open and what is
    /// highlighted; the open levels below the root are asked again.
    pub fn refresh(&mut self, value: DebugVariableView, fields: Vec<DebugVariableView>) -> (r: Vec<InspectionRequest>)
        requires
            old(self).wf(),
        ensures
            final(self).wf(),
            refresh_spec(*old(self), *final(self), value, fields@, r@),
    {
        let taken = self.view.take();
        match taken {
            None => Vec::new(),
            Some(mut view) => {
                let children = field_nodes_of(view.expression.as_str(), fields);
                view.root.variable = value;
                view.root.loaded = true;
                view.root.children = children;
                let deeper = expand_requests(&view.expanded, view.expression.as_str());
                self.view = Some(view);
                deeper
            },
        }
    }

    /// Closes the window and forgets the object, the report and the run.
    pub fn close(&mut self)
        ensures
            final(self).wf(),
            !final(self).open,
            final(self).view is None,
            final(self).message is None,
            final(self).run is None,
            final(self).source == old(self).source,
            final(self).focus == old(self).focus,
    {
        self.message = None;
        self.run = None;
        self.open = false;
        self.view = None;
    }
}

fn expand_requests(expanded: &Vec<String>, expression: &str) -> (r: Vec<InspectionRequest>)
    ensures
        expands(r@, without(texts(expanded@), expression@)),
{
    let ghost all = texts(expanded@);
    let mut r: Vec<InspectionRequest> = Vec::new();
    let mut i: usize = 0;
    while i < expanded.len()
        invariant
            all == texts(expanded@),
            0 <= i <= expanded@.len(),
            expands(r@, without(all.take(i as int), expression@)),
        decreases expanded@.len() - i,
    {
        proof {
            reveal(Seq::filter);
            assert(all.take(i + 1).drop_last() =~= all.take(i as int));
            assert(all.take(i + 1).last() == expanded@[i as int]@);
        }
        if !str_eq(expanded[i].as_str(), expression) {
            let ghost prev = r@;
            r.push(InspectionRequest::Expand(expanded[i].clone()));
            proof {
                assert(without(all.take(i + 1), expression@) == without(all.take(i as int), expression@).push(expanded@[i as int]@));
                assert forall|k: int| 0 <= k < r@.len() implies ((#[trigger] r@[k]) matches InspectionRequest::Expand(
                    x,
                ) && x@ == without(all.take(i + 1), expression@)[k]) by {
                    if k < prev.len() {
                        assert(r@[k] == prev[k]);
                    }
                }
            }
        } else {
            proof {
                assert(without(all.take(i + 1), expression@) == without(all.take(i as int), expression@));
            }
        }
        i = i + 1;
    }
    proof {
        assert(all.take(all.len() as int) =~= all);
    }
    r
}

/// The report of something said while the window is open: a run under way
/// stops there, and when statements before it had run, the root is read
/// again to show what they did.
pub open spec fn set_message_spec(
    before: InspectionSurface,
    after: InspectionSurface,
    message: Seq<char>,
    r: Seq<InspectionRequest>,
) -> bool {
    &&& after.run is None
    &&& after.open == before.open
    &&& after.view == before.view
    &&& after.source == before.source
    &&& after.focus == before.focus
    &&& if !before.open {
        after.message == before.message && r.len() == 0
    } else {
        match before.run {
            None => after.message matches Some(m) && m@ == message && r.len() == 0,
            Some(run) => {
                &&& after.message matches Some(m) && m@ == stopped_message(run.position as nat, run.total as nat, message)
                &&& if run.position > 1 {
                    reload_spec(before.view, r)
                } else {
                    r.len() == 0
                }
            },
        }
    }
}

/// Running the code written: without a live session it is refused in the
/// report; with no statement it is asked for; otherwise the first statement
/// is sent and the rest wait.
pub open spec fn run_source_spec(
    before: InspectionSurface,
    after: InspectionSurface,
    attached: bool,
    r: Seq<InspectionRequest>,
) -> bool {
    let all = statements_spec(before.source@);
    &&& after.open == before.open
    &&& after.view == before.view
    &&& after.source == before.source
    &&& after.focus == before.focus
    &&& if !attached {
        &&& after.message matches Some(m) && m@ == "A sessão de depuração terminou; reconecte para executar"@
        &&& after.run == before.run
        &&& r.len() == 0
    } else if all.len() == 0 {
        &&& after.message == before.message
        &&& after.run == before.run
        &&& r.len() == 1
        &&& r[0] matches InspectionRequest::Status(x)
        &&& r[0]->Status_0@ == "Escreva a expressão a executar"@
    } else {
        &&& after.message is None
        &&& after.run matches Some(n) && {
            &&& n.current@ == all[0]
            &&& texts(n.remaining@) == all.drop_first()
            &&& n.position == 1
            &&& n.total == all.len()
        }
        &&& r.len() == 2
        &&& r[0] matches InspectionRequest::Status(x)
        &&& r[0]->Status_0@ == first_status(all[0], all.len())
        &&& r[1] matches InspectionRequest::Evaluate(x)
        &&& r[1]->Evaluate_0@ == all[0]
    }
}

/// The first of `nodes`, from `i` on, whose variable is named `name`.
pub open spec fn field_named(nodes: Seq<InspectionNode>, name: Seq<char>, i: int) -> Option<InspectionNode>
    decreases nodes.len() - i,
{
    if i < 0 || i >= nodes.len() {
        None
    } else if nodes[i].variable.name@ == name {
        Some(nodes[i])
    } else {
        field_named(nodes, name, i + 1)
    }
}

/// The text of an optional string.
pub open spec fn opt_text(o: Option<String>) -> Option<Seq<char>> {
    match o {
        Some(s) => Some(s@),
        None => None,
    }
}

/// The run-time type of a name shown in the tree: the root's, or the first
/// field of the root with that name.
pub open spec fn type_of_spec(view: Option<InspectionView>, name: Seq<char>) -> Option<Seq<char>> {
    match view {
        None => None,
        Some(v) => if v.expression@ == name {
            opt_text(v.root.variable.type_label)
        } else {
            match field_named(v.root.children@, name, 0) {
                Some(n) => opt_text(n.variable.type_label),
                None => None,
            }
        },
    }
}

/// The node at `p` got the fields the target revealed: read, with those
/// fields and nothing else changed.
pub open spec fn refilled(before: InspectionNode, after: InspectionNode, p: Seq<char>, fields: Seq<DebugVariableView>) -> bool {
    &&& after.path == before.path
    &&& after.variable == before.variable
    &&& after.loaded
    &&& field_nodes(p, fields, after.children@)
}

/// Adding the fields of `p`: nothing happens without a view or without that
/// node; otherwise the node is refilled in place, and with no fields it is
/// no longer shown open.
pub open spec fn add_fields_spec(
    before: InspectionSurface,
    after: InspectionSurface,
    p: Seq<char>,
    fields: Seq<DebugVariableView>,
) -> bool {
    &&& after.open == before.open
    &&& after.source == before.source
    &&& after.focus == before.focus
    &&& after.message == before.message
    &&& after.run == before.run
    &&& match before.view {
        None => after.view is None,
        Some(v) => match find_spec(v.root, p) {
            None => after.view == before.view,
            Some(n) => after.view matches Some(w) && {
                &&& w.expression == v.expression
                &&& w.selected == v.selected
                &&& exists|sub: InspectionNode| #[trigger] replaced(v.root, w.root, p, sub) && refilled(n, sub, p, fields)
                &&& texts(w.expanded@) == if fields.len() == 0 {
                    without(texts(v.expanded@), p)
                } else {
                    texts(v.expanded@)
                }
            },
        },
    }
}

/// A click in the tree selected the node with identity `target`: it becomes
/// highlighted, and a value with fields opens or closes; opening one whose
/// fields were never read asks for them.
pub open spec fn select_spec(
    before: InspectionSurface,
    after: InspectionSurface,
    target: u64,
    r: Seq<InspectionRequest>,
) -> bool {
    &&& after.open == before.open
    &&& after.source == before.source
    &&& after.focus == before.focus
    &&& after.message == before.message
    &&& after.run == before.run
    &&& match before.view {
        None => after.view is None && r.len() == 0,
        Some(v) => match path_of_spec(v.root, target) {
            None => after.view == before.view && r.len() == 0,
            Some(p) => after.view matches Some(w) && {
                let n = find_spec(v.root, p);
                let expandable = n matches Some(x) && x.variable.expandable;
                let was_open = texts(v.expanded@).contains(p);
                &&& w.expression == v.expression
                &&& w.root == v.root
                &&& w.selected@ == p
                &&& if !expandable {
                    w.expanded == v.expanded && r.len() == 0
                } else if was_open {
                    texts(w.expanded@) == without(texts(v.expanded@), p) && r.len() == 0
                } else {
                    &&& texts(w.expanded@) == texts(v.expanded@).push(p)
                    &&& if n matches Some(x) && !x.loaded {
                        expands(r, seq![p])
                    } else {
                        r.len() == 0
                    }
                }
            },
        },
    }
}

impl InspectionSurface {
    /// One statement finished: sends the next, or closes the run.
    pub fn advance_run(&mut self, expression: &str, value: &str) -> (r: Vec<InspectionRequest>)
        requires
            old(self).wf(),
        ensures
            final(self).wf(),
            advance_spec(*old(self), *final(self), expression@, value@, r@),
    {
        let taken = self.run.take();
        match taken {
            None => Vec::new(),
            Some(mut run) => {
                let total = run.total;
                if run.remaining.len() == 0 {
                    let mut m = String::new();
                    if total > 1 {
                        push_decimal(&mut m, total);
                        push_str(&mut m, " instruções executadas — ");
                    }
                    push_str(&mut m, expression);
                    push_str(&mut m, " → ");
                    push_str(&mut m, value);
                    proof {
                        if total > 1 {
                            assert(m@ =~= run_done_message(total as nat, expression@, value@));
                        } else {
                            assert(m@ =~= run_done_message(total as nat, expression@, value@));
                        }
                    }
                    self.message = Some(m);
                    self.reload()
                } else {
                    let ghost before = run.remaining@;
                    let next = run.remaining.remove(0);
                    proof {
                        assert(texts(run.remaining@) =~= texts(before).drop_first());
                    }
                    run.position = run.position + 1;
                    let position = run.position;
                    run.current = next.clone();
                    let mut status = string_of("Executando ");
                    push_str(&mut status, next.as_str());
                    push_str(&mut status, " (");
                    push_decimal(&mut status, position);
                    push_str(&mut status, " de ");
                    push_decimal(&mut status, total);
                    push_str(&mut status, ")");
                    self.run = Some(run);
                    let mut r: Vec<InspectionRequest> = Vec::new();
                    r.push(InspectionRequest::Status(status));
                    r.push(InspectionRequest::Evaluate(next));
                    r
                }
            },
        }
    }

    /// An evaluation result arrived. A statement of the run under way
    /// advances the run; the same root again, while the window shows, is the
    /// reading asked after a run and only refreshes the values; anything
    /// else opens the window on it.
    pub fn result(&mut self, expression: String, value: DebugVariableView, fields: Vec<DebugVariableView>) -> (r: Vec<InspectionRequest>)
        requires
            old(self).wf(),
        ensures
            final(self).wf(),
            if old(self).run matches Some(run) && run.current@ == expression@ {
                advance_spec(*old(self), *final(self), expression@, value.value@, r@)
            } else if old(self).view matches Some(v) && v.expression@ == expression@ && old(self).open {
                refresh_spec(*old(self), *final(self), value, fields@, r@)
            } else {
                show_spec(*old(self), *final(self), expression@, value, fields@) && r@.len() == 0
            },
    {
        let running = match &self.run {
            Some(run) => run.current == expression,
            None => false,
        };
        if running {
            return self.advance_run(expression.as_str(), value.value.as_str());
        }
        let same_root = match &self.view {
            Some(v) => v.expression == expression,
            None => false,
        };
        if same_root && self.open {
            return self.refresh(value, fields);
        }
        self.show(expression, value, fields);
        Vec::new()
    }

    /// Reports in the window what the last run answered; a run under way
    /// stops there.
    pub fn set_message(&mut self, message: String) -> (r: Vec<InspectionRequest>)
        requires
            old(self).wf(),
        ensures
            final(self).wf(),
            set_message_spec(*old(self), *final(self), message@, r@),
    {
        let interrupted = self.run.take();
        if !self.open {
            return Vec::new();
        }
        match interrupted {
            None => {
                self.message = Some(message);
                Vec::new()
            },
            Some(run) => {
                if run.total > 1 {
                    let mut m = string_of("parou na instrução ");
                    push_decimal(&mut m, run.position);
                    push_str(&mut m, " de ");
                    push_decimal(&mut m, run.total);
                    push_str(&mut m, ": ");
                    push_str(&mut m, message.as_str());
                    self.message = Some(m);
                } else {
                    self.message = Some(message);
                }
                if run.position > 1 {
                    return self.reload();
                }
                Vec::new()
            },
        }
    }

    /// Runs the code written, in the current frame; `attached` says whether
    /// the debugging session is alive.
    pub fn run_source(&mut self, attached: bool) -> (r: Vec<InspectionRequest>)
        requires
            old(self).wf(),
        ensures
            final(self).wf(),
            run_source_spec(*old(self), *final(self), attached, r@),
    {
        if !attached {
            self.message = Some(string_of("A sessão de depuração terminou; reconecte para executar"));
            return Vec::new();
        }
        let mut all = statements(self.source.as_str());
        if all.len() == 0 {
            let mut r: Vec<InspectionRequest> = Vec::new();
            r.push(InspectionRequest::Status(string_of("Escreva a expressão a executar")));
            return r;
        }
        let ghost whole = texts(all@);
        let total = all.len();
        let first = all.remove(0);
        proof {
            assert(texts(all@) =~= whole.drop_first());
        }
        let mut status = string_of("Executando ");
        push_str(&mut status, first.as_str());
        if total > 1 {
            push_str(&mut status, " (1 de ");
            push_decimal(&mut status, total);
            push_str(&mut status, ")");
        }
        self.message = None;
        self.run = Some(InspectionRun { current: first.clone(), remaining: all, position: 1, total });
        let mut r: Vec<InspectionRequest> = Vec::new();
        r.push(InspectionRequest::Status(status));
        r.push(InspectionRequest::Evaluate(first));
        r
    }

    /// The run-time type of a name shown in the tree.
    pub fn type_of(&self, name: &str) -> (r: Option<String>)
        ensures
            opt_text(r) == type_of_spec(self.view, name@),
    {
        let view = match &self.view {
            Some(v) => v,
            None => return None,
        };
        if str_eq(view.expression.as_str(), name) {
            return copy_text(&view.root.variable.type_label);
        }
        let mut i: usize = 0;
        while i < view.root.children.len()
            invariant
                self.view == Some(*view),
                view.expression@ != name@,
                0 <= i <= view.root.children@.len(),
                field_named(view.root.children@, name@, 0) == field_named(view.root.children@, name@, i as int),
            decreases view.root.children@.len() - i,
        {
            if str_eq(view.root.children[i].variable.name.as_str(), name) {
                proof {
                    assert(field_named(view.root.children@, name@, i as int) == Some(view.root.children@[i as int]));
                }
                return copy_text(&view.root.children[i].variable.type_label);
            }
            i = i + 1;
        }
        None
    }

    /// Adds the fields the target revealed for `path`.
    pub fn add_fields(&mut self, path: &str, fields: Vec<DebugVariableView>)
        requires
            old(self).wf(),
        ensures
            final(self).wf(),
            add_fields_spec(*old(self), *final(self), path@, fields@),
    {
        let taken = self.view.take();
        let mut view = match taken {
            Some(v) => v,
            None => return,
        };
        let ghost v0 = view;
        assert(nodup(texts(v0.expanded@)));
        let children = field_nodes_of(path, fields);
        let empty = children.len() == 0;
        let found = match view.root.find_mut(path) {
            Some(node) => {
                node.loaded = true;
                node.children = children;
                true
            },
            None => false,
        };
        if found && empty {
            remove_path(&mut view.expanded, path);
            proof {
                lemma_filter_nodup(texts(v0.expanded@), path@);
            }
        }
        self.view = Some(view);
    }

    /// A click in the tree selected the node with identity `target`.
    pub fn select_id(&mut self, target: u64) -> (r: Vec<InspectionRequest>)
        requires
            old(self).wf(),
        ensures
            final(self).wf(),
            select_spec(*old(self), *final(self), target, r@),
    {
        let taken = self.view.take();
        let mut view = match taken {
            Some(v) => v,
            None => return Vec::new(),
        };
        let path = match path_of(&view.root, target) {
            Some(p) => p,
            None => {
                self.view = Some(view);
                return Vec::new();
            },
        };
        let ghost v0 = view;
        assert(nodup(texts(v0.expanded@)));
        let (expandable, loaded) = match view.root.find(path.as_str()) {
            Some(n) => (n.variable.expandable, n.loaded),
            None => (false, true),
        };
        let mut r: Vec<InspectionRequest> = Vec::new();
        if expandable {
            let was_open = remove_path(&mut view.expanded, path.as_str());
            proof {
                lemma_filter_nodup(texts(v0.expanded@), path@);
            }
            if !was_open {
                proof {
                    assert(texts(view.expanded@) =~= texts(v0.expanded@)) by {
                        lemma_filter_absent(texts(v0.expanded@), path@);
                    }
                }
                let ghost prev = view.expanded@;
                view.expanded.push(path.clone());
                proof {
                    assert(texts(view.expanded@) =~= texts(prev).push(path@));
                    lemma_push_nodup(texts(prev), path@);
                }
                if !loaded {
                    r.push(InspectionRequest::Expand(path.clone()));
                }
            }
        }
        view.selected = path;
        self.view = Some(view);
        r
    }

    /// The variable highlighted in the tree, the one detailed beside it.
    pub fn selected_variable(&self) -> (r: Option<&DebugVariableView>)
        ensures
            match self.view {
                None => r is None,
                Some(v) => match find_spec(v.root, v.selected@) {
                    Some(n) => r == Some(&n.variable),
                    None => r is None,
                },
            },
    {
        let view = match &self.view {
            Some(v) => v,
            None => return None,
        };
        match view.root.find(view.selected.as_str()) {
            Some(n) => Some(&n.variable),
            None => None,
        }
    }
}

fn copy_text(o: &Option<String>) -> (r: Option<String>)
    ensures
        opt_text(r) == opt_text(*o),
{
    match o {
        Some(s) => Some(s.clone()),
        None => None,
    }
}

proof fn lemma_filter_nodup(s: Seq<Seq<char>>, p: Seq<char>)
    requires
        nodup(s),
    ensures
        nodup(without(s, p)),
    decreases s.len(),
{
    reveal(Seq::filter);
    if s.len() > 0 {
        lemma_filter_nodup(s.drop_last(), p);
        let f = without(s.drop_last(), p);
        if s.last() != p {
            assert forall|k: int| 0 <= k < f.len() implies f[k] != s.last() by {
                assert(without(s.drop_last(), p).contains(f[k]));
                s.drop_last().lemma_filter_contains_rev(other_than(p), f[k]);
                let m = choose|m: int| 0 <= m < s.drop_last().len() && s.drop_last()[m] == f[k];
                assert(s[m] == s.drop_last()[m]);
            }
        }
    }
}

proof fn lemma_filter_absent(s: Seq<Seq<char>>, p: Seq<char>)
    requires
        !s.contains(p),
    ensures
        without(s, p) == s,
    decreases s.len(),
{
    reveal(Seq::filter);
    if s.len() > 0 {
        assert(!s.drop_last().contains(p)) by {
            if s.drop_last().contains(p) {
                let m = choose|m: int| 0 <= m < s.drop_last().len() && s.drop_last()[m] == p;
                assert(s[m] == p);
            }
        }
        lemma_filter_absent(s.drop_last(), p);
        assert(s.drop_last().push(s.last()) =~= s);
    }
}

proof fn lemma_push_nodup(s: Seq<Seq<char>>, p: Seq<char>)
    requires
        nodup(s),
        !s.contains(p),
    ensures
        nodup(s.push(p)),
{
    assert forall|i: int, j: int| 0 <= i < j < s.push(p).len() implies s.push(p)[i] != s.push(p)[j] by {
        if j == s.len() {
            assert(s[i] == s.push(p)[i]);
        }
    }
}

/// What the selection asks the debugger to evaluate: the selected text,
/// trimmed, when the selection falls between characters and holds more than
/// blanks.
pub fn inspect_selection(pane: &EditorPane, buffer: &str) -> (r: Option<InspectionRequest>)
    ensures
        match ordered(pane.selection) {
            Some((s, e)) => {
                let picked = buffer@.subrange(char_index(buffer@, s as int), char_index(buffer@, e as int));
                if replaceable(buffer@, s as int, e as int) && trim(picked).len() > 0 {
                    r matches Some(InspectionRequest::Evaluate(x)) && x@ == trim(picked)
                } else {
                    r is None
                }
            },
            None => r is None,
        },
{
    let picked = match pane.selected_text(buffer) {
        Some(t) => t,
        None => return None,
    };
    let expression = trimmed(picked.as_str());
    if expression.as_str().is_empty() {
        return None;
    }
    Some(InspectionRequest::Evaluate(expression))
}

/// The node reached from `root` by taking, at each level, the child with
/// the next index of `route`; none when an index is out of range.
pub open spec fn node_at(root: InspectionNode, route: Seq<int>) -> Option<InspectionNode>
    decreases route.len(),
{
    if route.len() == 0 {
        Some(root)
    } else if 0 <= route[0] < root.children@.len() {
        node_at(root.children@[route[0]], route.drop_first())
    } else {
        None
    }
}

proof fn lemma_path_of_sound(node: InspectionNode, target: u64)
    ensures
        path_of_spec(node, target) matches Some(p) ==> text_hash(p) == target,
    decreases node, node.children@.len() + 1,
{
    if text_hash(node.path@) != target {
        lemma_path_of_from_sound(node, 0, target);
    }
}

proof fn lemma_path_of_from_sound(node: InspectionNode, i: int, target: u64)
    ensures
        path_of_from(node, i, target) matches Some(p) ==> text_hash(p) == target,
    decreases node, node.children@.len() - i,
{
    if 0 <= i < node.children@.len() {
        assert(decreases_to!(node => node.children@[i]));
        lemma_path_of_sound(node.children@[i], target);
        lemma_path_of_from_sound(node, i + 1, target);
    }
}

proof fn lemma_path_of_from_finds(node: InspectionNode, i: int, j: int, target: u64)
    requires
        0 <= i <= j < node.children@.len(),
        path_of_spec(node.children@[j], target) is Some,
    ensures
        path_of_from(node, i, target) is Some,
    decreases j - i,
{
    if i < j {
        lemma_path_of_from_finds(node, i + 1, j, target);
    }
}

/// Whatever `path_of` answers names a node with the identity asked for.
pub proof fn law_the_path_found_has_the_identity_asked_for(root: InspectionNode, target: u64)
    ensures
        path_of_spec(root, target) matches Some(p) ==> text_hash(p) == target,
{
    lemma_path_of_sound(root, target);
}

/// Every node of the tree can be found by its identity, at any depth and
/// under any child: a click on any field selects a node.
pub proof fn law_every_node_can_be_found(root: InspectionNode, route: Seq<int>, n: InspectionNode)
    requires
        node_at(root, route) == Some(n),
    ensures
        path_of_spec(root, text_hash(n.path@)) matches Some(p) && text_hash(p) == text_hash(n.path@),
    decreases route.len(),
{
    let t = text_hash(n.path@);
    if route.len() > 0 {
        let j = route[0];
        let c = root.children@[j];
        law_every_node_can_be_found(c, route.drop_first(), n);
        if text_hash(root.path@) != t {
            lemma_path_of_from_finds(root, 0, j, t);
        }
    }
    lemma_path_of_sound(root, t);
}

} // verus!
