//! Identity, compaction and kinds of the nodes of the Explorer tree.
use std::collections::{HashMap, HashSet};
use vstd::prelude::*;
use crate::fmt::{push_str, str_eq, string_of};
use crate::chars::push_char;
use crate::paths::{extension, extension_of, file_name, file_name_of, parent, parent_of, path_hash};
pub use crate::paths::id;

verus! {

broadcast use vstd::std_specs::hash::group_hash_axioms;

/// `c` with an ASCII capital letter made small; any other character as is.
pub open spec fn ascii_lower(c: char) -> char {
    if 'A' <= c && c <= 'Z' {
        ((c as u32) + 32) as char
    } else {
        c
    }
}

/// Equal up to ASCII case: what `str::eq_ignore_ascii_case` compares.
pub open spec fn eq_ascii_case(a: Seq<char>, b: Seq<char>) -> bool {
    a.len() == b.len() && forall|i: int| 0 <= i < a.len() ==> ascii_lower(a[i]) == ascii_lower(b[i])
}

fn lower_char(c: char) -> (r: char)
    ensures
        r == ascii_lower(c),
{
    if 'A' <= c && c <= 'Z' {
        let v = (c as u8) + 32;
        proof {
            assert((v as u32) == (c as u32) + 32);
        }
        v as char
    } else {
        c
    }
}

/// `str::eq_ignore_ascii_case`.
pub fn eq_ignore_ascii_case(a: &str, b: &str) -> (r: bool)
    ensures
        r == eq_ascii_case(a@, b@),
{
    let x = crate::chars::chars_of(a);
    let y = crate::chars::chars_of(b);
    if x.len() != y.len() {
        return false;
    }
    let mut i: usize = 0;
    while i < x.len()
        invariant
            x@ == a@,
            y@ == b@,
            x@.len() == y@.len(),
            0 <= i <= x@.len(),
            forall|k: int| 0 <= k < i ==> ascii_lower(x@[k]) == ascii_lower(y@[k]),
        decreases x@.len() - i,
    {
        if lower_char(x[i]) != lower_char(y[i]) {
            return false;
        }
        i = i + 1;
    }
    true
}

/// `str::to_ascii_lowercase`.
pub fn to_ascii_lowercase(s: &str) -> (r: String)
    ensures
        r@ == s@.map_values(|c: char| ascii_lower(c)),
{
    let cs = crate::chars::chars_of(s);
    let mut r = String::new();
    let mut i: usize = 0;
    while i < cs.len()
        invariant
            cs@ == s@,
            0 <= i <= cs@.len(),
            r@ == cs@.take(i as int).map_values(|c: char| ascii_lower(c)),
        decreases cs@.len() - i,
    {
        push_char(&mut r, lower_char(cs[i]));
        proof {
            assert(cs@.take(i + 1).map_values(|c: char| ascii_lower(c)) =~= cs@.take(
                i as int,
            ).map_values(|c: char| ascii_lower(c)).push(ascii_lower(cs@[i as int])));
        }
        i = i + 1;
    }
    proof {
        assert(cs@.take(cs@.len() as int) =~= cs@);
    }
    r
}

/// `s` ends with `suffix`.
pub open spec fn ends_with_spec(s: Seq<char>, suffix: Seq<char>) -> bool {
    suffix.len() <= s.len() && s.subrange(s.len() - suffix.len(), s.len() as int) == suffix
}

/// `str::ends_with` with a string pattern.
pub fn ends_with(s: &str, suffix: &str) -> (r: bool)
    ensures
        r == ends_with_spec(s@, suffix@),
{
    let x = crate::chars::chars_of(s);
    let y = crate::chars::chars_of(suffix);
    if y.len() > x.len() {
        return false;
    }
    let xl = x.len();
    let off = x.len() - y.len();
    let mut i: usize = 0;
    while i < y.len()
        invariant
            xl == x@.len(),
            x@ == s@,
            y@ == suffix@,
            y@.len() <= x@.len(),
            off == x@.len() - y@.len(),
            0 <= i <= y@.len(),
            forall|k: int| 0 <= k < i ==> x@[off + k] == y@[k],
        decreases y@.len() - i,
    {
        if x[off + i] != y[i] {
            proof {
                assert(x@.subrange(off as int, x@.len() as int)[i as int] != y@[i as int]);
            }
            return false;
        }
        i = i + 1;
    }
    proof {
        assert(x@.subrange(off as int, x@.len() as int) =~= y@);
    }
    true
}

/// The names of the source roots, as text.
pub open spec fn names_view(names: Seq<String>) -> Seq<Seq<char>> {
    names.map_values(|s: String| s@)
}

/// The path's last component is, up to ASCII case, one of the source root
/// names.
pub open spec fn is_source_root_spec(p: Seq<char>, names: Seq<Seq<char>>) -> bool {
    match file_name_of(p) {
        None => false,
        Some(n) => exists|i: int| 0 <= i < names.len() && eq_ascii_case(#[trigger] names[i], n),
    }
}

/// Whether the path names a source root (its last component, ignoring ASCII
/// case, is one of `source_root_names`).
pub fn is_source_root(path: &str, source_root_names: &[String]) -> (r: bool)
    ensures
        r == is_source_root_spec(path@, names_view(source_root_names@)),
{
    let name = match file_name(path) {
        Some(n) => n,
        None => return false,
    };
    let mut i: usize = 0;
    while i < source_root_names.len()
        invariant
            0 <= i <= source_root_names@.len(),
            file_name_of(path@) == Some(name@),
            forall|k: int|
                0 <= k < i ==> !eq_ascii_case(
                    #[trigger] names_view(source_root_names@)[k],
                    name@,
                ),
        decreases source_root_names@.len() - i,
    {
        if eq_ignore_ascii_case(source_root_names[i].as_str(), name.as_str()) {
            proof {
                assert(names_view(source_root_names@)[i as int] == source_root_names@[i as int]@);
            }
            return true;
        }
        i = i + 1;
    }
    false
}

/// The `k`-th ancestor of a path: itself, its parent, its grandparent...
pub open spec fn ancestor(p: Seq<char>, k: nat) -> Option<Seq<char>>
    decreases k,
{
    if k == 0 {
        Some(p)
    } else {
        match ancestor(p, (k - 1) as nat) {
            Some(a) => parent_of(a),
            None => None,
        }
    }
}

pub(crate) proof fn lemma_ancestor_none(p: Seq<char>, k: nat, j: nat)
    requires
        ancestor(p, k) is None,
        k <= j,
    ensures
        ancestor(p, j) is None,
    decreases j - k,
{
    if k < j {
        lemma_ancestor_none(p, k, (j - 1) as nat);
    }
}

/// The `k`-th ancestor exists and is a source root.
pub open spec fn root_ancestor(p: Seq<char>, k: nat, names: Seq<Seq<char>>) -> bool {
    match ancestor(p, k) {
        Some(a) => is_source_root_spec(a, names),
        None => false,
    }
}

/// Some proper ancestor of the path is a source root.
pub open spec fn is_package_spec(p: Seq<char>, names: Seq<Seq<char>>) -> bool {
    exists|k: nat| k >= 1 && #[trigger] root_ancestor(p, k, names)
}

/// Whether the path lies under a source root: some ancestor other than the
/// path itself is one.
pub fn is_package(path: &str, source_root_names: &[String]) -> (r: bool)
    ensures
        r == is_package_spec(path@, names_view(source_root_names@)),
{
    let ghost names = names_view(source_root_names@);
    let mut current = parent(path);
    let ghost mut k: nat = 1;
    proof {
        assert(ancestor(path@, 0) == Some(path@));
    }
    loop
        invariant
            k >= 1,
            ancestor(path@, k) == match current {
                Some(c) => Some(c@),
                None => None::<Seq<char>>,
            },
            names == names_view(source_root_names@),
            forall|j: nat| 1 <= j < k ==> !#[trigger] root_ancestor(path@, j, names),
        decreases match current {
            Some(c) => c@.len() + 1,
            None => 0,
        },
    {
        match current {
            None => {
                proof {
                    assert forall|j: nat| j >= 1 implies !#[trigger] root_ancestor(path@, j, names) by {
                        if j >= k {
                            lemma_ancestor_none(path@, k, j);
                        }
                    }
                }
                return false;
            },
            Some(c) => {
                if is_source_root(c.as_str(), source_root_names) {
                    proof {
                        assert(root_ancestor(path@, k, names));
                    }
                    return true;
                }
                let next = parent(c.as_str());
                current = next;
                proof {
                    k = k + 1;
                }
            },
        }
    }
}

/// The role of the theme that paints a badge.
#[derive(Clone, Copy, Debug, Eq, PartialEq, Structural)]
pub enum IconTint {
    Accent,
    Warning,
    Danger,
    Success,
    Pink,
    Muted,
}

/// The kind of an Explorer node, for the badge it gets.
///
/// Neutral by construction: folder from the file tree, file type from the
/// extension, class, interface and enum from the declared symbol.
#[derive(Clone, Copy, Debug, Eq, PartialEq, Structural)]
pub enum Especie {
    Pasta,
    Classe,
    Interface,
    Enumeracao,
    TypeScript,
    Teste,
    Marcacao,
    FolhaSass,
    FolhaEstilo,
    Nenhuma,
}

impl Especie {
    /// The badge's text; none when the badge is a square.
    pub fn letra(self) -> (r: Option<&'static str>)
        ensures
            match self {
                Especie::Classe => r matches Some(t) && t@ == "C"@,
                Especie::Interface => r matches Some(t) && t@ == "I"@,
                Especie::Enumeracao => r matches Some(t) && t@ == "E"@,
                Especie::TypeScript => r matches Some(t) && t@ == "TS"@,
                Especie::Teste => r matches Some(t) && t@ == "IT"@,
                Especie::Marcacao => r matches Some(t) && t@ == "</>"@,
                Especie::FolhaSass => r matches Some(t) && t@ == "SC"@,
                Especie::FolhaEstilo => r matches Some(t) && t@ == "CS"@,
                Especie::Pasta | Especie::Nenhuma => r is None,
            },
    {
        match self {
            Especie::Classe => Some("C"),
            Especie::Interface => Some("I"),
            Especie::Enumeracao => Some("E"),
            Especie::TypeScript => Some("TS"),
            Especie::Teste => Some("IT"),
            Especie::Marcacao => Some("</>"),
            Especie::FolhaSass => Some("SC"),
            Especie::FolhaEstilo => Some("CS"),
            Especie::Pasta | Especie::Nenhuma => None,
        }
    }

    /// Which role of the theme paints the badge.
    pub fn tom(self) -> (r: IconTint)
        ensures
            r == match self {
                Especie::Pasta | Especie::Classe | Especie::FolhaEstilo => IconTint::Accent,
                Especie::Interface | Especie::Marcacao => IconTint::Warning,
                Especie::Enumeracao | Especie::Teste => IconTint::Danger,
                Especie::TypeScript => IconTint::Success,
                Especie::FolhaSass => IconTint::Pink,
                Especie::Nenhuma => IconTint::Muted,
            },
    {
        match self {
            Especie::Pasta | Especie::Classe | Especie::FolhaEstilo => IconTint::Accent,
            Especie::Interface | Especie::Marcacao => IconTint::Warning,
            Especie::Enumeracao | Especie::Teste => IconTint::Danger,
            Especie::TypeScript => IconTint::Success,
            Especie::FolhaSass => IconTint::Pink,
            Especie::Nenhuma => IconTint::Muted,
        }
    }
}

/// The text lowered to ASCII small letters.
pub open spec fn lower_text(s: Seq<char>) -> Seq<char> {
    s.map_values(|c: char| ascii_lower(c))
}

/// The kind the extension reveals: `.spec.ts` before `.ts`, the most specific
/// first.
pub open spec fn especie_da_extensao_spec(p: Seq<char>) -> Option<Especie> {
    match file_name_of(p) {
        None => None,
        Some(nome) => if ends_with_spec(lower_text(nome), ".spec.ts"@) {
            Some(Especie::Teste)
        } else {
            match extension_of(p) {
                None => None,
                Some(e) => {
                    let x = lower_text(e);
                    if x == "ts"@ {
                        Some(Especie::TypeScript)
                    } else if x == "html"@ || x == "htm"@ {
                        Some(Especie::Marcacao)
                    } else if x == "scss"@ || x == "sass"@ {
                        Some(Especie::FolhaSass)
                    } else if x == "css"@ {
                        Some(Especie::FolhaEstilo)
                    } else {
                        None
                    }
                },
            }
        },
    }
}

/// The kind the extension reveals, without asking anyone.
pub fn especie_da_extensao(path: &str) -> (r: Option<Especie>)
    ensures
        r == especie_da_extensao_spec(path@),
{
    let nome = match file_name(path) {
        Some(n) => n,
        None => return None,
    };
    let nome = to_ascii_lowercase(nome.as_str());
    if ends_with(nome.as_str(), ".spec.ts") {
        return Some(Especie::Teste);
    }
    let extensao = match extension(path) {
        Some(e) => e,
        None => return None,
    };
    let extensao = to_ascii_lowercase(extensao.as_str());
    let x = extensao.as_str();
    if str_eq(x, "ts") {
        Some(Especie::TypeScript)
    } else if str_eq(x, "html") || str_eq(x, "htm") {
        Some(Especie::Marcacao)
    } else if str_eq(x, "scss") || str_eq(x, "sass") {
        Some(Especie::FolhaSass)
    } else if str_eq(x, "css") {
        Some(Especie::FolhaEstilo)
    } else {
        None
    }
}


/// A file or folder of the project, with the children read so far.
#[derive(Debug)]
pub struct FileNode {
    pub path: String,
    pub is_directory: bool,
    pub children: Vec<FileNode>,
}

/// The kind of symbol a file declares, as the index reports it.
#[derive(Clone, Copy, Debug, Eq, PartialEq, Structural)]
pub enum SymbolKind {
    Class,
    Record,
    Interface,
    Enum,
    Other,
}

/// The text a node shows: its last component, or `?`.
pub open spec fn label_spec(node: FileNode) -> Seq<char> {
    match file_name_of(node.path@) {
        Some(n) => n,
        None => "?"@,
    }
}

/// The text a node shows.
pub fn label(node: &FileNode) -> (r: String)
    ensures
        r@ == label_spec(*node),
{
    match file_name(node.path.as_str()) {
        Some(n) => n,
        None => string_of("?"),
    }
}

/// A chain of packages with a single folder child each collapses into one
/// row: the node where the chain ends, and the dotted label.
pub open spec fn compact_spec(node: FileNode, names: Seq<Seq<char>>, label: Seq<char>) -> (
    FileNode,
    Seq<char>,
)
    decreases node,
{
    if is_package_spec(node.path@, names) && node.children@.len() == 1
        && node.children@[0].is_directory {
        compact_spec(node.children@[0], names, label + "."@ + label_spec(node.children@[0]))
    } else {
        (node, label)
    }
}

fn compact_from<'a>(node: &'a FileNode, source_root_names: &[String], label_so_far: String) -> (r: (
    &'a FileNode,
    String,
))
    ensures
        (*r.0, r.1@) == compact_spec(*node, names_view(source_root_names@), label_so_far@),
    decreases node,
{
    if is_package(node.path.as_str(), source_root_names) && node.children.len() == 1
        && node.children[0].is_directory {
        let mut l = label_so_far;
        push_str(&mut l, ".");
        let child_label = label(&node.children[0]);
        push_str(&mut l, child_label.as_str());
        compact_from(&node.children[0], source_root_names, l)
    } else {
        (node, label_so_far)
    }
}

/// Collapses a chain of single-folder packages into one node and its dotted
/// label.
pub fn compact_package_chain<'a>(node: &'a FileNode, source_root_names: &[String]) -> (r: (
    &'a FileNode,
    String,
))
    ensures
        (*r.0, r.1@) == compact_spec(*node, names_view(source_root_names@), label_spec(*node)),
{
    let l = label(node);
    compact_from(node, source_root_names, l)
}

/// The kind of a node: every folder is a folder; a file by its extension,
/// else by what the index says it declares.
pub open spec fn especie_spec(node: FileNode, kinds: Map<u64, SymbolKind>) -> Especie {
    if node.is_directory {
        Especie::Pasta
    } else if especie_da_extensao_spec(node.path@) is Some {
        especie_da_extensao_spec(node.path@)->0
    } else {
        let key = path_hash(node.path@);
        if kinds.contains_key(key) {
            match kinds[key] {
                SymbolKind::Class | SymbolKind::Record => Especie::Classe,
                SymbolKind::Interface => Especie::Interface,
                SymbolKind::Enum => Especie::Enumeracao,
                SymbolKind::Other => Especie::Nenhuma,
            }
        } else {
            Especie::Nenhuma
        }
    }
}

/// The kind of a node.
pub fn especie(node: &FileNode, kinds: &HashMap<u64, SymbolKind>) -> (r: Especie)
    ensures
        r == especie_spec(*node, kinds@),
{
    if node.is_directory {
        return Especie::Pasta;
    }
    if let Some(e) = especie_da_extensao(node.path.as_str()) {
        return e;
    }
    let key = id(node.path.as_str());
    match kinds.get(&key) {
        Some(SymbolKind::Class) | Some(SymbolKind::Record) => Especie::Classe,
        Some(SymbolKind::Interface) => Especie::Interface,
        Some(SymbolKind::Enum) => Especie::Enumeracao,
        _ => Especie::Nenhuma,
    }
}


/// Compaction ends at the node itself or at a node below it.
pub proof fn lemma_compact_descends(node: FileNode, names: Seq<Seq<char>>, label: Seq<char>)
    ensures
        compact_spec(node, names, label).0 == node || decreases_to!(node => compact_spec(node, names, label).0),
    decreases node,
{
    if is_package_spec(node.path@, names) && node.children@.len() == 1
        && node.children@[0].is_directory {
        let child = node.children@[0];
        lemma_compact_descends(child, names, label + "."@ + label_spec(child));
        assert(decreases_to!(node => child));
    }
}

/// The Explorer tree in names, before it becomes widgets.
#[derive(Debug)]
pub struct NoDoExplorer {
    pub id: u64,
    pub label: String,
    pub especie: Especie,
    pub children: Vec<NoDoExplorer>,
}

/// `rows` stand for the children of `node`, one row per child, in order.
pub open spec fn rows_match(
    rows: Seq<NoDoExplorer>,
    node: FileNode,
    names: Seq<Seq<char>>,
    kinds: Map<u64, SymbolKind>,
) -> bool
    decreases node, 0int,
{
    &&& rows.len() == node.children@.len()
    &&& forall|j: int|
        0 <= j < rows.len() ==> row_matches(#[trigger] rows[j], node.children@[j], names, kinds)
}

/// `row` stands for `child` compacted: the identity of the node where its
/// chain ends, its dotted label, its kind, and the rows below it.
pub open spec fn row_matches(
    row: NoDoExplorer,
    child: FileNode,
    names: Seq<Seq<char>>,
    kinds: Map<u64, SymbolKind>,
) -> bool
    decreases child, 1int,
{
    let (end, text) = compact_spec(child, names, label_spec(child));
    proof {
        lemma_compact_descends(child, names, label_spec(child));
    }
    &&& row.id == path_hash(end.path@)
    &&& row.label@ == text
    &&& row.especie == especie_spec(end, kinds)
    &&& rows_match(row.children@, end, names, kinds)
}

proof fn lemma_rows_match_intro(
    rows: Seq<NoDoExplorer>,
    node: FileNode,
    names: Seq<Seq<char>>,
    kinds: Map<u64, SymbolKind>,
)
    requires
        rows.len() == node.children@.len(),
        forall|j: int| 0 <= j < rows.len() ==> row_matches(#[trigger] rows[j], node.children@[j], names, kinds),
    ensures
        rows_match(rows, node, names, kinds),
{
}

/// The rows of the Explorer below `node`, in names.
pub fn nomes(node: &FileNode, source_root_names: &[String], kinds: &HashMap<u64, SymbolKind>) -> (r: Vec<NoDoExplorer>)
    ensures
        rows_match(r@, *node, names_view(source_root_names@), kinds@),
    decreases node,
{
    let ghost names = names_view(source_root_names@);
    let mut out: Vec<NoDoExplorer> = Vec::new();
    let mut i: usize = 0;
    while i < node.children.len()
        invariant
            names == names_view(source_root_names@),
            0 <= i <= node.children@.len(),
            out@.len() == i,
            forall|j: int| 0 <= j < i ==> #[trigger] row_matches(out@[j], node.children@[j], names, kinds@),
        decreases node.children@.len() - i,
    {
        let child = &node.children[i];
        let (end, label) = compact_package_chain(child, source_root_names);
        proof {
            lemma_compact_descends(*child, names, label_spec(*child));
            assert(decreases_to!(*node => *child));
        }
        let children = nomes(end, source_root_names, kinds);
        let row = NoDoExplorer { id: id(end.path.as_str()), label, especie: especie(end, kinds), children };
        out.push(row);
        proof {
            assert(row_matches(out@[i as int], node.children@[i as int], names, kinds@));
        }
        i = i + 1;
    }
    proof {
        lemma_rows_match_intro(out@, *node, names, kinds@);
    }
    out
}

/// The identities of the rows drawn for the children `i..` of `node`, in
/// the order they are drawn: each child compacted, then, when its identity is
/// expanded, the rows below it.
pub open spec fn visible_from(node: FileNode, i: int, names: Seq<Seq<char>>, expanded: Set<u64>) -> Seq<u64>
    decreases node, node.children@.len() - i,
{
    if i < 0 || i >= node.children@.len() {
        Seq::empty()
    } else {
        let child = node.children@[i];
        let end = compact_spec(child, names, label_spec(child)).0;
        proof {
            lemma_compact_descends(child, names, label_spec(child));
            assert(decreases_to!(node => child));
        }
        let key = path_hash(end.path@);
        let below = if expanded.contains(key) {
            visible_from(end, 0, names, expanded)
        } else {
            Seq::empty()
        };
        seq![key] + below + visible_from(node, i + 1, names, expanded)
    }
}

/// How many nodes hang below the children `i..` of `node`, those children
/// included.
pub open spec fn size_from(node: FileNode, i: int) -> nat
    decreases node, node.children@.len() - i,
{
    if i < 0 || i >= node.children@.len() {
        0
    } else {
        proof {
            assert(decreases_to!(node => node.children@[i]));
        }
        1 + size_from(node.children@[i], 0) + size_from(node, i + 1)
    }
}

/// `k` is where `t` first occurs in `s`.
pub open spec fn first_at(s: Seq<u64>, t: u64, k: int) -> bool {
    0 <= k < s.len() && s[k] == t && forall|m: int| 0 <= m < k ==> s[m] != t
}

proof fn lemma_compact_size(node: FileNode, names: Seq<Seq<char>>, label: Seq<char>)
    ensures
        size_from(compact_spec(node, names, label).0, 0) <= size_from(node, 0),
    decreases node,
{
    if is_package_spec(node.path@, names) && node.children@.len() == 1
        && node.children@[0].is_directory {
        let child = node.children@[0];
        lemma_compact_size(child, names, label + "."@ + label_spec(child));
        assert(size_from(node, 1) == 0);
    }
}

proof fn lemma_visible_size(node: FileNode, i: int, names: Seq<Seq<char>>, expanded: Set<u64>)
    ensures
        visible_from(node, i, names, expanded).len() <= size_from(node, i),
    decreases node, node.children@.len() - i,
{
    if 0 <= i < node.children@.len() {
        let child = node.children@[i];
        let end = compact_spec(child, names, label_spec(child)).0;
        lemma_compact_descends(child, names, label_spec(child));
        assert(decreases_to!(node => child));
        lemma_compact_size(child, names, label_spec(child));
        lemma_visible_size(end, 0, names, expanded);
        lemma_visible_size(node, i + 1, names, expanded);
    }
}

fn visit(
    node: &FileNode,
    source_root_names: &[String],
    expanded: &HashSet<u64>,
    target: u64,
    row: &mut usize,
) -> (r: Option<usize>)
    requires
        *old(row) + visible_from(*node, 0, names_view(source_root_names@), expanded@).len() <= usize::MAX,
    ensures
        ({
            let s = visible_from(*node, 0, names_view(source_root_names@), expanded@);
            match r {
                Some(k) => *old(row) <= k && first_at(s, target, k - *old(row)),
                None => !s.contains(target) && *final(row) == *old(row) + s.len(),
            }
        }),
    decreases node,
{
    let ghost names = names_view(source_root_names@);
    let ghost whole = visible_from(*node, 0, names, expanded@);
    let ghost start = *row;
    let ghost mut done: Seq<u64> = Seq::empty();
    let mut i: usize = 0;
    while i < node.children.len()
        invariant
            names == names_view(source_root_names@),
            whole == visible_from(*node, 0, names, expanded@),
            start == *old(row),
            start + whole.len() <= usize::MAX,
            0 <= i <= node.children@.len(),
            done + visible_from(*node, i as int, names, expanded@) == whole,
            *row == start + done.len(),
            !done.contains(target),
        decreases node.children@.len() - i,
    {
        let child = &node.children[i];
        let (end, _) = compact_package_chain(child, source_root_names);
        proof {
            lemma_compact_descends(*child, names, label_spec(*child));
            assert(decreases_to!(*node => *child));
        }
        let ghost rest = visible_from(*node, i + 1, names, expanded@);
        let ghost below = if expanded@.contains(path_hash(end.path@)) {
            visible_from(*end, 0, names, expanded@)
        } else {
            Seq::empty()
        };
        assert(visible_from(*node, i as int, names, expanded@) == seq![path_hash(end.path@)] + below + rest);
        let identidade = id(end.path.as_str());
        if identidade == target {
            proof {
                assert(whole[done.len() as int] == target);
                assert forall|m: int| 0 <= m < done.len() implies whole[m] != target by {
                    assert(whole[m] == done[m]);
                }
                assert(first_at(whole, target, done.len() as int));
            }
            return Some(*row);
        }
        *row = *row + 1;
        proof {
            let prev = done;
            done = done + seq![identidade];
            assert(done + below + rest == whole);
            assert(!done.contains(target)) by {
                if done.contains(target) {
                    let m = choose|m: int| 0 <= m < done.len() && done[m] == target;
                    assert(m < prev.len());
                    assert(prev[m] == target);
                }
            }
        }
        if expanded.contains(&identidade) {
            proof {
                assert(whole == (done + below) + rest);
            }
            let found = visit(end, source_root_names, expanded, target, row);
            match found {
                Some(k) => {
                    proof {
                        let j = k - (start + done.len());
                        assert(whole[done.len() + j] == below[j]);
                        assert forall|m: int| 0 <= m < done.len() + j implies whole[m] != target by {
                            if m < done.len() {
                                assert(whole[m] == done[m]);
                            } else {
                                assert(whole[m] == below[m - done.len()]);
                            }
                        }
                        assert(first_at(whole, target, done.len() + j));
                    }
                    return Some(k);
                },
                None => {
                    proof {
                        done = done + below;
                    }
                },
            }
        }
        i = i + 1;
    }
    proof {
        assert(done == whole);
    }
    None
}

/// The visible row of the node with identity `target`, counting the rows
/// drawn for the children of `node` from the top; `None` when no drawn row
/// has that identity.
pub fn visible_row(
    node: &FileNode,
    source_root_names: &[String],
    expanded: &HashSet<u64>,
    target: u64,
) -> (r: Option<usize>)
    requires
        size_from(*node, 0) <= usize::MAX,
    ensures
        ({
            let s = visible_from(*node, 0, names_view(source_root_names@), expanded@);
            match r {
                Some(k) => first_at(s, target, k as int),
                None => !s.contains(target),
            }
        }),
{
    proof {
        lemma_visible_size(*node, 0, names_view(source_root_names@), expanded@);
    }
    let mut row: usize = 0;
    visit(node, source_root_names, expanded, target, &mut row)
}

/// A folder shows as a folder; a file with a known extension shows that
/// extension's kind; any other file shows what the index says it declares:
/// a class or a record as a class, an interface as an interface, an enum as
/// an enum, and nothing for anything else or for a file the index does not
/// know.
pub proof fn law_a_file_shows_what_it_declares(node: FileNode, kinds: Map<u64, SymbolKind>)
    ensures
        node.is_directory ==> especie_spec(node, kinds) == Especie::Pasta,
        !node.is_directory ==> (especie_da_extensao_spec(node.path@) matches Some(e) ==> especie_spec(node, kinds) == e),
        !node.is_directory && especie_da_extensao_spec(node.path@) is None ==> ({
            let key = path_hash(node.path@);
            &&& !kinds.contains_key(key) ==> especie_spec(node, kinds) == Especie::Nenhuma
            &&& kinds.contains_key(key) && kinds[key] == SymbolKind::Interface ==> especie_spec(node, kinds)
                == Especie::Interface
            &&& kinds.contains_key(key) && (kinds[key] == SymbolKind::Class || kinds[key] == SymbolKind::Record)
                ==> especie_spec(node, kinds) == Especie::Classe
            &&& kinds.contains_key(key) && kinds[key] == SymbolKind::Enum ==> especie_spec(node, kinds)
                == Especie::Enumeracao
            &&& kinds.contains_key(key) && kinds[key] == SymbolKind::Other ==> especie_spec(node, kinds)
                == Especie::Nenhuma
        }),
{
}

} // verus!
