use ide_ui::pares::{Digitacao, LinhaNova, a_apagar, ao_abrir_linha, ao_digitar, passo_de};

#[test]
fn abrir_um_par_pede_o_fechamento() {
    assert_eq!(ao_digitar("", 0, None, "("), Digitacao::Fecha('(', ')'));
    assert_eq!(ao_digitar("", 0, None, "{"), Digitacao::Fecha('{', '}'));
    assert_eq!(ao_digitar("", 0, None, "["), Digitacao::Fecha('[', ']'));
    assert_eq!(ao_digitar("", 0, None, "a"), Digitacao::Normal);
}

#[test]
fn as_aspas_fecham_sozinhas() {
    assert_eq!(ao_digitar("", 0, None, "'"), Digitacao::Fecha('\'', '\''));
    assert_eq!(ao_digitar("", 0, None, "\""), Digitacao::Fecha('"', '"'));
    assert_eq!(ao_digitar("", 0, None, "`"), Digitacao::Fecha('`', '`'));
}

#[test]
fn a_aspa_sob_o_cursor_e_passagem_e_nao_abertura() {
    assert_eq!(ao_digitar("''", 1, None, "'"), Digitacao::Pula('\''));
    assert_eq!(ao_digitar("\"a\"", 2, None, "\""), Digitacao::Pula('"'));
}

#[test]
fn o_apostrofo_no_meio_da_palavra_nao_abre_string() {
    assert_eq!(ao_digitar("// don", 6, None, "'"), Digitacao::Normal);
    assert_eq!(ao_digitar("valor1", 6, None, "'"), Digitacao::Normal);
    assert_eq!(ao_digitar("nome_", 5, None, "'"), Digitacao::Normal);
    assert_eq!(
        ao_digitar("const a = ", 10, None, "'"),
        Digitacao::Fecha('\'', '\'')
    );
}

#[test]
fn as_aspas_envolvem_o_trecho_marcado() {
    assert_eq!(
        ao_digitar("abc", 3, Some(0..3), "\""),
        Digitacao::Envolve('"', '"')
    );
}

#[test]
fn apagar_a_aspa_leva_so_a_encostada() {
    assert_eq!(a_apagar("''", 1), Some((0..1, 1..2)));
    assert_eq!(a_apagar("'a' 'b'", 1), None);
}

#[test]
fn digitar_o_fechamento_que_ja_esta_ali_passa_por_cima() {
    assert_eq!(ao_digitar("()", 1, None, ")"), Digitacao::Pula(')'));
    assert_eq!(ao_digitar("(a", 2, None, ")"), Digitacao::Normal);
    assert_eq!(ao_digitar("(]", 1, None, ")"), Digitacao::Normal);
}

#[test]
fn com_trecho_marcado_o_abridor_envolve() {
    assert_eq!(
        ao_digitar("abc", 3, Some(0..3), "("),
        Digitacao::Envolve('(', ')')
    );
    assert_eq!(ao_digitar("abc", 3, Some(0..3), ")"), Digitacao::Normal);
}

#[test]
fn texto_composto_nao_e_par() {
    assert_eq!(ao_digitar("", 0, None, "(a)"), Digitacao::Normal);
    assert_eq!(ao_digitar("", 0, None, ""), Digitacao::Normal);
}

#[test]
fn apagar_o_abridor_leva_o_fechamento_da_mesma_linha() {
    assert_eq!(a_apagar("()", 1), Some((0..1, 1..2)));
    assert_eq!(a_apagar("f(a, b)", 2), Some((1..2, 6..7)));
    assert_eq!(a_apagar("ab", 2), None);
    assert_eq!(a_apagar("f(a", 2), None);
}

#[test]
fn fechamento_em_outra_linha_fica_onde_esta() {
    assert_eq!(a_apagar("{\n  corpo\n}", 1), None);
}

#[test]
fn o_fechamento_e_o_do_par_e_nao_o_primeiro() {
    assert_eq!(a_apagar("f(g())", 4), Some((3..4, 4..5)));
}

#[test]
fn o_enter_abre_bloco_depois_do_abridor() {
    assert_eq!(
        ao_abrir_linha("  metodo() {}", 12),
        Some(LinhaNova {
            abertura: "  ".to_owned(),
            fechamento_junto: true,
        })
    );
    assert_eq!(
        ao_abrir_linha("  metodo() {", 12),
        Some(LinhaNova {
            abertura: "  ".to_owned(),
            fechamento_junto: false,
        })
    );
    assert_eq!(ao_abrir_linha("  metodo()", 10), None);
}

#[test]
fn o_passo_vem_do_arquivo() {
    let dois = "class A {\n  metodo() {\n    faz();\n  }\n}";
    assert_eq!(passo_de(dois).as_deref(), Some("  "));

    let quatro = "class A {\n    metodo() {\n        faz();\n    }\n}";
    assert_eq!(passo_de(quatro).as_deref(), Some("    "));

    let tabulado = "class A {\n\tmetodo() {\n\t\tfaz();\n\t}\n}";
    assert_eq!(passo_de(tabulado).as_deref(), Some("\t"));

    assert_eq!(passo_de("const a = 1;\n"), None);
}

#[test]
fn o_comentario_de_bloco_nao_define_o_passo() {
    let com_comentario = [
        "/**\n",
        " * Nota.\n",
        " */\n",
        "class A {\n",
        "  metodo() {\n",
        "    faz();\n",
        "  }\n",
        "}\n",
    ]
    .join("");
    assert_eq!(
        passo_de(&com_comentario).as_deref(),
        Some("  "),
        "o ` *` do comentário indenta de um, e não pode arrastar o arquivo"
    );
}
