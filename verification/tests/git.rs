use ide_ui::git::{
    acoes_de, conflict_request, CommitButton, ConflictButton, GitRequest, hash_curto, largura_do_grafo, linha_da_branch, nome_do_estado, Aba, Acao, BranchItem, CommitRow, GitEntry,
    GitFileState, GitSurface, GitView,
};

fn entry(path: &str, state: GitFileState) -> GitEntry {
    GitEntry { path: format!("/w/{path}"), label: path.to_owned(), state }
}

fn branch(name: &str) -> BranchItem {
    BranchItem { name: name.to_owned(), ..BranchItem::default() }
}

fn view() -> GitView {
    GitView {
        head: Some("main".to_owned()),
        changed: 3,
        entries: vec![
            entry("a.rs", GitFileState::Modified),
            entry("b.rs", GitFileState::Staged),
            entry("c.rs", GitFileState::Modified),
            entry("d.rs", GitFileState::Untracked),
        ],
        branches: vec![branch("main"), branch("Feature/Login"), branch("fix-login")],
        tags: vec!["v1".to_owned()],
        remotes: vec!["origin".to_owned(), "fork".to_owned()],
        ..GitView::default()
    }
}

#[test]
fn the_status_bar_shows_the_head_and_the_changes() {
    let mut v = view();
    assert!(v.has_repository());
    assert_eq!(v.status_segment().as_deref(), Some("main ~3"));
    v.changed = 0;
    assert_eq!(v.status_segment().as_deref(), Some("main"));
    assert_eq!(GitView::default().status_segment(), None);
    assert!(!GitView::default().has_repository());
}

#[test]
fn each_panel_offers_its_own_actions() {
    assert_eq!(acoes_de(GitFileState::Staged), vec![Acao::Despreparar]);
    assert_eq!(acoes_de(GitFileState::Modified), vec![Acao::Preparar, Acao::Descartar]);
    assert_eq!(acoes_de(GitFileState::Conflicted), vec![Acao::Preparar, Acao::Descartar]);
    assert_eq!(acoes_de(GitFileState::Untracked), vec![Acao::Preparar], "an untracked file is never discarded");
    assert_eq!(Acao::Preparar.rotulo(), "Preparar");
    assert_eq!(Acao::Despreparar.comando(), "git.unstage");
    assert_eq!(Acao::Descartar.comando(), "git.discard");
    assert_eq!(nome_do_estado(GitFileState::Untracked), "Não rastreados");
    assert_eq!(nome_do_estado(GitFileState::Conflicted), "Em conflito");
}

#[test]
fn a_panel_lists_its_files_in_order() {
    let mut g = GitSurface::new();
    g.set_view(view());
    assert_eq!(g.entradas(GitFileState::Modified), vec![0, 2]);
    assert_eq!(g.entradas(GitFileState::Staged), vec![1]);
    assert!(g.entradas(GitFileState::Conflicted).is_empty());
}

#[test]
fn the_search_filters_branches_ignoring_case() {
    let mut g = GitSurface::new();
    g.set_view(view());
    g.toggle();
    assert!(g.is_open());
    assert_eq!(g.branches_filtradas(), vec![0, 1, 2]);
    assert_eq!(
        g.tree_roots(),
        vec!["Branches (3)".to_owned(), "Tags (1)".to_owned(), "Remotes (2)".to_owned(), "Stashes (0)".to_owned()]
    );
    g.text_input("LOGIN");
    assert_eq!(g.query(), "LOGIN");
    assert_eq!(g.branches_filtradas(), vec![1, 2]);
    assert_eq!(g.tree_roots(), vec!["Branches (2)".to_owned()]);
    g.text_input("x");
    assert!(g.branches_filtradas().is_empty());
    assert!(g.tree_roots().is_empty(), "a search that empties the branches leaves no root");
    assert!(g.key("Backspace"));
    assert_eq!(g.query(), "LOGIN");
    g.toggle();
    g.toggle();
    assert_eq!(g.query(), "", "opening clears the search");
}

#[test]
fn the_box_with_the_cursor_takes_the_text() {
    let mut g = GitSurface::new();
    g.escrevendo = true;
    g.text_input("fix: ");
    g.text_input("tab\tignored");
    assert_eq!(g.mensagem(), "fix: ");
    assert!(g.key("Enter"));
    assert_eq!(g.mensagem(), "fix: \n");
    assert!(g.key("Backspace"));
    assert!(g.key("Backspace"));
    assert_eq!(g.mensagem(), "fix:");
    assert!(!g.key("ArrowLeft"));
    g.limpar_mensagem();
    assert_eq!(g.mensagem(), "");
    g.escrevendo = false;
    g.nomeando = true;
    g.text_input("nova");
    assert_eq!(g.nome_novo(), "nova");
    assert!(!g.key("Enter"), "Enter is not the name box's");
    assert_eq!(g.query(), "");
}

#[test]
fn the_right_side_says_why_it_is_empty() {
    let mut g = GitSurface::new();
    assert_eq!(g.linhas_do_lado_direito(), vec!["Esta pasta não está num repositório Git".to_owned()]);
    g.set_view(view());
    assert_eq!(g.linhas_do_lado_direito(), vec!["3 arquivo(s) alterado(s)".to_owned()]);
    let mut limpo = view();
    limpo.changed = 0;
    g.set_view(limpo);
    assert_eq!(g.linhas_do_lado_direito(), vec!["Nada mudou desde o último commit".to_owned()]);
    g.aba = Aba::History;
    assert_eq!(g.linhas_do_lado_direito(), vec!["Sem commits ainda".to_owned()]);
    let mut erro = view();
    erro.message = Some("git falhou".to_owned());
    g.set_view(erro);
    assert_eq!(g.linhas_do_lado_direito(), vec!["git falhou".to_owned()]);
}

#[test]
fn the_graph_is_as_wide_as_its_widest_commit() {
    assert_eq!(largura_do_grafo(&Vec::new()), 1);
    let commits = vec![
        CommitRow { lanes: 2, ..CommitRow::default() },
        CommitRow { lanes: 4, ..CommitRow::default() },
        CommitRow { lanes: 0, ..CommitRow::default() },
    ];
    assert_eq!(largura_do_grafo(&commits), 4);
}

#[test]
fn a_branch_row_shows_its_mark_count_and_actions() {
    let atual = BranchItem { name: "main".to_owned(), current: true, ahead: 2, behind: 0 };
    let row = linha_da_branch(&atual);
    assert_eq!(row.marca, "●");
    assert_eq!(row.nome, "main");
    assert_eq!(row.contagem.as_deref(), Some("↑2"));
    assert_eq!(
        row.acoes,
        vec![("Pull".to_owned(), "git.pull".to_owned()), ("Push".to_owned(), "git.push".to_owned())]
    );
    let outra = BranchItem { name: "dev".to_owned(), current: false, ahead: 1, behind: 3 };
    let row = linha_da_branch(&outra);
    assert_eq!(row.marca, "");
    assert_eq!(row.contagem.as_deref(), Some("↑1 ↓3"));
    assert_eq!(row.acoes[0], ("Trocar".to_owned(), "git.switch".to_owned()));
    assert_eq!(row.acoes[1], ("Fundir".to_owned(), "git.merge".to_owned()));
    let atras = BranchItem { name: "x".to_owned(), current: false, ahead: 0, behind: 4 };
    assert_eq!(linha_da_branch(&atras).contagem.as_deref(), Some("↓4"));
    assert_eq!(linha_da_branch(&branch("y")).contagem, None, "nothing to count, no count");
}

#[test]
fn the_history_shows_seven_characters_of_the_hash() {
    assert_eq!(hash_curto("0123456789abcdef"), "0123456");
    assert_eq!(hash_curto("abc"), "abc");
}

#[test]
fn a_click_on_the_tree_asks_what_the_row_offers() {
    let mut g = GitSurface::new();
    let mut v = view();
    v.branches[0].current = true;
    g.set_view(v);
    assert_eq!(g.pedido_da_arvore(100, Some(0)), Some(GitRequest::Push));
    assert_eq!(g.pedido_da_arvore(100, Some(1)), Some(GitRequest::Pull));
    assert_eq!(g.pedido_da_arvore(100, None), None, "the name itself asks nothing");
    assert_eq!(g.pedido_da_arvore(101, Some(0)), Some(GitRequest::Merge("Feature/Login".to_owned())));
    assert_eq!(g.pedido_da_arvore(102, Some(1)), Some(GitRequest::SwitchBranch("fix-login".to_owned())));
    assert_eq!(g.pedido_da_arvore(103, Some(0)), None, "past the branches shown");
    assert_eq!(g.pedido_da_arvore(3, Some(0)), Some(GitRequest::Fetch));
    assert_eq!(g.pedido_da_arvore(3, None), None);
    assert_eq!(g.pedido_da_arvore(3_002, None), Some(GitRequest::StashPop(2)));
    g.text_input("fix");
    assert_eq!(
        g.pedido_da_arvore(100, Some(1)),
        Some(GitRequest::SwitchBranch("fix-login".to_owned())),
        "the rows follow the search"
    );
}

#[test]
fn a_click_on_a_panel_acts_or_shows_the_difference() {
    let mut g = GitSurface::new();
    g.set_view(view());
    assert_eq!(g.pedido_do_painel(GitFileState::Modified, 1, Some(0)), Some(GitRequest::Discard("/w/c.rs".to_owned())));
    assert_eq!(g.pedido_do_painel(GitFileState::Modified, 0, Some(1)), Some(GitRequest::Stage("/w/a.rs".to_owned())));
    assert_eq!(
        g.pedido_do_painel(GitFileState::Modified, 0, None),
        Some(GitRequest::ShowDiff { path: "/w/a.rs".to_owned(), staged: false })
    );
    assert_eq!(g.pedido_do_painel(GitFileState::Staged, 0, Some(0)), Some(GitRequest::Unstage("/w/b.rs".to_owned())));
    assert_eq!(
        g.pedido_do_painel(GitFileState::Staged, 0, Some(1)),
        Some(GitRequest::ShowDiff { path: "/w/b.rs".to_owned(), staged: true })
    );
    assert_eq!(g.pedido_do_painel(GitFileState::Untracked, 3, None), None);
}

#[test]
fn every_action_asks_for_the_snapshot_again_and_moves_reload_the_history() {
    let mut g = GitSurface::new();
    g.click_commit(None);
    g.text_input("primeiro");
    assert_eq!(g.pedir_ao_git(GitRequest::Stage("a.rs".to_owned())), vec![GitRequest::Stage("a.rs".to_owned()), GitRequest::Refresh]);
    assert_eq!(
        g.pedir_ao_git(GitRequest::ShowDiff { path: "a.rs".to_owned(), staged: false }),
        vec![GitRequest::ShowDiff { path: "a.rs".to_owned(), staged: false }],
        "a diff changes nothing"
    );
    assert_eq!(g.pedir_ao_git(GitRequest::LoadHistory { ja_carregados: 40 }), vec![GitRequest::LoadHistory { ja_carregados: 40 }]);
    assert_eq!(
        g.pedir_ao_git(GitRequest::Pull),
        vec![GitRequest::Pull, GitRequest::Refresh, GitRequest::LoadHistory { ja_carregados: 0 }]
    );
    assert_eq!(g.pedir_ao_git(GitRequest::Fetch), vec![GitRequest::Fetch, GitRequest::Refresh]);
    assert_eq!(g.mensagem(), "primeiro", "only a commit empties the box");
    let commit = GitRequest::Commit { message: "primeiro".to_owned(), amend: false };
    assert_eq!(
        g.pedir_ao_git(GitRequest::Commit { message: "primeiro".to_owned(), amend: false }),
        vec![commit, GitRequest::Refresh, GitRequest::LoadHistory { ja_carregados: 0 }]
    );
    assert_eq!(g.mensagem(), "");
}

#[test]
fn opening_the_window_asks_for_the_snapshot() {
    let mut g = GitSurface::new();
    assert_eq!(g.toggle_git(), Some(GitRequest::Refresh));
    assert!(g.is_open());
    assert_eq!(g.toggle_git(), None);
    assert!(!g.is_open());
}

#[test]
fn the_history_tab_asks_for_its_first_page_only_when_empty() {
    let mut g = GitSurface::new();
    assert_eq!(g.choose_tab(true), Some(GitRequest::LoadHistory { ja_carregados: 0 }));
    assert_eq!(g.aba, Aba::History);
    assert_eq!(g.choose_tab(false), None);
    assert_eq!(g.aba, Aba::Status);
    g.set_view(GitView { commits: vec![CommitRow::default()], ..view() });
    assert_eq!(g.choose_tab(true), None, "the history is already here");
}

#[test]
fn a_new_branch_takes_the_trimmed_name_and_never_an_empty_one() {
    let mut g = GitSurface::new();
    assert_eq!(g.click_new_branch(false), None);
    assert!(g.nomeando);
    g.text_input("   ");
    assert_eq!(g.click_new_branch(true), None, "only spaces is no name");
    assert!(!g.nomeando);
    assert_eq!(g.nome_novo(), "   ");
    g.click_new_branch(false);
    g.key("Backspace");
    g.key("Backspace");
    g.key("Backspace");
    g.text_input(" nova ");
    assert_eq!(g.click_new_branch(true), Some(GitRequest::CreateBranch("nova".to_owned())));
    assert_eq!(g.nome_novo(), "");
}

#[test]
fn an_empty_message_makes_no_commit_but_amends() {
    let mut g = GitSurface::new();
    assert_eq!(g.click_commit(None), None);
    assert!(g.escrevendo, "the stripe is the message box");
    assert_eq!(g.click_commit(Some(CommitButton::Commit)), None);
    assert!(g.escrevendo);
    assert_eq!(
        g.click_commit(Some(CommitButton::Amend)),
        Some(GitRequest::Commit { message: String::new(), amend: true })
    );
    assert!(!g.escrevendo);
    g.click_commit(None);
    g.text_input("resumo");
    assert_eq!(
        g.click_commit(Some(CommitButton::Commit)),
        Some(GitRequest::Commit { message: "resumo".to_owned(), amend: false })
    );
    assert_eq!(conflict_request(ConflictButton::Abort), GitRequest::AbortOperation);
    assert_eq!(conflict_request(ConflictButton::Continue), GitRequest::ContinueOperation);
}
