use std::collections::{HashMap, HashSet};

use ide_ui::explorer::{
    compact_package_chain, especie, especie_da_extensao, is_package, is_source_root, label, nomes,
    visible_row, Especie, FileNode, IconTint, SymbolKind,
};
use ide_ui::explorer::id;

fn roots() -> Vec<String> {
    vec!["src".to_owned(), "java".to_owned()]
}

fn dir(path: &str, children: Vec<FileNode>) -> FileNode {
    FileNode { path: path.to_owned(), is_directory: true, children }
}

fn file(path: &str) -> FileNode {
    FileNode { path: path.to_owned(), is_directory: false, children: Vec::new() }
}

fn project() -> FileNode {
    dir(
        "/w",
        vec![
            dir(
                "/w/src",
                vec![dir(
                    "/w/src/br",
                    vec![dir(
                        "/w/src/br/com",
                        vec![dir(
                            "/w/src/br/com/exemplo",
                            vec![file("/w/src/br/com/exemplo/Conta.java"), file("/w/src/br/com/exemplo/app.ts")],
                        )],
                    )],
                )],
            ),
            file("/w/README.md"),
        ],
    )
}

#[test]
fn a_source_root_is_known_by_its_last_name_in_any_ascii_case() {
    assert!(is_source_root("/w/proj/src", &roots()));
    assert!(is_source_root("/w/proj/SRC", &roots()));
    assert!(is_source_root("/w/main/Java", &roots()));
    assert!(!is_source_root("/w/proj/lib", &roots()));
    assert!(!is_source_root("/w/src/lib", &roots()));
}

#[test]
fn a_package_lies_below_a_source_root() {
    assert!(is_package("/w/src/br", &roots()));
    assert!(is_package("/w/src/br/com/exemplo", &roots()));
    assert!(!is_package("/w/src", &roots()), "the root itself is no package");
    assert!(!is_package("/w/lib/br", &roots()));
}

#[test]
fn the_extension_tells_the_kind_the_most_specific_first() {
    assert_eq!(especie_da_extensao("/w/app.spec.ts"), Some(Especie::Teste));
    assert_eq!(especie_da_extensao("/w/APP.SPEC.TS"), Some(Especie::Teste));
    assert_eq!(especie_da_extensao("/w/app.ts"), Some(Especie::TypeScript));
    assert_eq!(especie_da_extensao("/w/index.HTML"), Some(Especie::Marcacao));
    assert_eq!(especie_da_extensao("/w/index.htm"), Some(Especie::Marcacao));
    assert_eq!(especie_da_extensao("/w/tema.sass"), Some(Especie::FolhaSass));
    assert_eq!(especie_da_extensao("/w/tema.scss"), Some(Especie::FolhaSass));
    assert_eq!(especie_da_extensao("/w/tema.css"), Some(Especie::FolhaEstilo));
    assert_eq!(especie_da_extensao("/w/Conta.java"), None);
    assert_eq!(especie_da_extensao("/w/Makefile"), None);
}

#[test]
fn every_kind_has_its_badge_and_tint() {
    assert_eq!(Especie::Classe.letra(), Some("C"));
    assert_eq!(Especie::Interface.letra(), Some("I"));
    assert_eq!(Especie::Enumeracao.letra(), Some("E"));
    assert_eq!(Especie::TypeScript.letra(), Some("TS"));
    assert_eq!(Especie::Teste.letra(), Some("IT"));
    assert_eq!(Especie::Marcacao.letra(), Some("</>"));
    assert_eq!(Especie::FolhaSass.letra(), Some("SC"));
    assert_eq!(Especie::FolhaEstilo.letra(), Some("CS"));
    assert_eq!(Especie::Pasta.letra(), None);
    assert_eq!(Especie::Nenhuma.letra(), None);
    assert_eq!(Especie::Pasta.tom(), IconTint::Accent);
    assert_eq!(Especie::Interface.tom(), IconTint::Warning);
    assert_eq!(Especie::Teste.tom(), IconTint::Danger);
    assert_eq!(Especie::TypeScript.tom(), IconTint::Success);
    assert_eq!(Especie::FolhaSass.tom(), IconTint::Pink);
    assert_eq!(Especie::Nenhuma.tom(), IconTint::Muted);
}

#[test]
fn a_chain_of_single_folder_packages_is_one_row() {
    let p = project();
    let src = &p.children[0];
    let br = &src.children[0];
    let (end, text) = compact_package_chain(br, &roots());
    assert_eq!(text, "br.com.exemplo");
    assert_eq!(end.path, "/w/src/br/com/exemplo");
    let (same, own) = compact_package_chain(src, &roots());
    assert_eq!(own, "src", "a source root is not a package");
    assert_eq!(same.path, "/w/src");
    assert_eq!(label(&file("/w/README.md")), "README.md");
}

#[test]
fn a_file_is_known_by_extension_then_by_what_it_declares() {
    let mut kinds = HashMap::new();
    kinds.insert(id("/w/src/br/com/exemplo/Conta.java"), SymbolKind::Record);
    kinds.insert(id("/w/Cor.java"), SymbolKind::Enum);
    kinds.insert(id("/w/app.ts"), SymbolKind::Interface);
    assert_eq!(especie(&file("/w/src/br/com/exemplo/Conta.java"), &kinds), Especie::Classe);
    assert_eq!(especie(&file("/w/Cor.java"), &kinds), Especie::Enumeracao);
    assert_eq!(especie(&file("/w/app.ts"), &kinds), Especie::TypeScript, "the extension comes first");
    assert_eq!(especie(&file("/w/Outro.java"), &kinds), Especie::Nenhuma);
    assert_eq!(especie(&dir("/w/x.ts", Vec::new()), &kinds), Especie::Pasta);
}

#[test]
fn the_rows_follow_the_tree_with_chains_joined() {
    let p = project();
    let kinds = HashMap::new();
    let rows = nomes(&p, &roots(), &kinds);
    assert_eq!(rows.len(), 2);
    assert_eq!(rows[0].label, "src");
    assert_eq!(rows[0].especie, Especie::Pasta);
    assert_eq!(rows[0].id, id("/w/src"));
    let pacote = &rows[0].children[0];
    assert_eq!(pacote.label, "br.com.exemplo");
    assert_eq!(pacote.id, id("/w/src/br/com/exemplo"));
    assert_eq!(pacote.children.len(), 2);
    assert_eq!(pacote.children[1].especie, Especie::TypeScript);
    assert_eq!(rows[1].label, "README.md");
    assert!(rows[1].children.is_empty());
}

#[test]
fn the_visible_row_counts_only_what_is_drawn() {
    let p = project();
    let mut expanded = HashSet::new();
    assert_eq!(visible_row(&p, &roots(), &expanded, id("/w/README.md")), Some(1));
    assert_eq!(visible_row(&p, &roots(), &expanded, id("/w/src/br/com/exemplo")), None);
    expanded.insert(id("/w/src"));
    assert_eq!(visible_row(&p, &roots(), &expanded, id("/w/src/br/com/exemplo")), Some(1));
    assert_eq!(visible_row(&p, &roots(), &expanded, id("/w/README.md")), Some(2));
    assert_eq!(
        visible_row(&p, &roots(), &expanded, id("/w/src/br")),
        None,
        "a link of a joined chain has no row of its own"
    );
    expanded.insert(id("/w/src/br/com/exemplo"));
    assert_eq!(visible_row(&p, &roots(), &expanded, id("/w/src/br/com/exemplo/app.ts")), Some(3));
    assert_eq!(visible_row(&p, &roots(), &expanded, id("/w/README.md")), Some(4));
}

#[test]
fn a_path_keeps_its_identity_however_it_is_written() {
    assert_eq!(id("src/a.rs"), id("src/a.rs"), "the same node between frames");
    assert_eq!(id("src/a.rs"), id("src//a.rs"), "the same components");
    assert_eq!(id("src/a.rs"), id("src/./a.rs"));
    assert_ne!(id("src/a.rs"), id("src/b.rs"));
}
