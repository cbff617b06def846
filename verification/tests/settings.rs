use ide_ui::settings::{
    contribution_section, parse_u16, DebugField, SettingsOutcome, SettingsPage, SettingsSurface,
    ToolRole,
};

#[test]
fn a_port_is_a_decimal_number_that_fits() {
    assert_eq!(parse_u16("8000"), Some(8000));
    assert_eq!(parse_u16("+1"), Some(1));
    assert_eq!(parse_u16("00042"), Some(42));
    assert_eq!(parse_u16("65535"), Some(65535));
    assert_eq!(parse_u16("65536"), None);
    assert_eq!(parse_u16(""), None);
    assert_eq!(parse_u16("+"), None);
    assert_eq!(parse_u16("-1"), None);
    assert_eq!(parse_u16("12a"), None);
    assert_eq!(parse_u16(" 1"), None);
    for texto in ["0", "7", "80", "443", "9999", "65000"] {
        assert_eq!(parse_u16(texto), texto.parse::<u16>().ok());
    }
}

#[test]
fn the_target_needs_a_host_and_a_port_above_zero() {
    let mut s = SettingsSurface::new();
    assert_eq!(s.debug_target(), Some(("127.0.0.1".to_owned(), 8000)));
    s.debug_host = " localhost ".to_owned();
    s.debug_port = " 9000 ".to_owned();
    assert_eq!(s.debug_target(), Some(("localhost".to_owned(), 9000)));
    s.debug_port = "0".to_owned();
    assert_eq!(s.debug_target(), None);
    s.debug_port = "9000".to_owned();
    s.debug_host = "   ".to_owned();
    assert_eq!(s.debug_target(), None);
    s.set_debug_target("h", 5005);
    assert_eq!(s.debug_host, "h");
    assert_eq!(s.debug_port, "5005");
}

#[test]
fn saving_applies_only_what_changed() {
    let mut s = SettingsSurface::new();
    s.set_page(SettingsPage::Contribution(0));
    s.open(vec!["jdk17".to_owned(), "jdk21".to_owned()], 1);
    s.item_selected(ToolRole::Primary, 0);
    match s.save() {
        SettingsOutcome::Save { section, primary, secondary } => {
            assert_eq!(section, 0);
            assert_eq!(primary, Some(0));
            assert_eq!(secondary, None);
        }
        outro => panic!("{outro:?}"),
    }
    assert!(!s.is_open());

    s.open(vec!["jdk17".to_owned()], 0);
    s.item_selected(ToolRole::Primary, 0);
    assert!(matches!(s.save(), SettingsOutcome::Save { primary: None, secondary: None, .. }), "a mesma escolha não é mudança");

    s.set_page(SettingsPage::Debug);
    s.open(Vec::new(), 0);
    assert!(matches!(s.save(), SettingsOutcome::Idle));
}

#[test]
fn cancelling_restores_what_was_there() {
    let mut s = SettingsSurface::new();
    s.secondary_items = vec!["maven".to_owned(), "gradle".to_owned()];
    s.secondary_selected = 1;
    s.open(vec!["a".to_owned(), "b".to_owned()], 1);
    s.set_toolchain_options(vec!["a".to_owned(), "b".to_owned(), "c".to_owned()], 2);
    s.set_secondary_options(vec!["maven".to_owned(), "gradle".to_owned()], Some(0));
    s.debug_host = "outro".to_owned();
    assert_eq!(s.toolchain_selected, 2);
    s.cancel();
    assert_eq!(s.toolchain_selected, 1);
    assert_eq!(s.secondary_selected, 1);
    assert_eq!(s.debug_host, "127.0.0.1");
    assert!(!s.is_open());
    assert!(s.dialog.is_none());
}

#[test]
fn browsing_says_which_section_and_role() {
    let mut s = SettingsSurface::new();
    s.choose_page(1, 3);
    assert_eq!(s.page(), SettingsPage::Contribution(1));
    assert!(matches!(s.browse(ToolRole::Secondary), SettingsOutcome::Browse { section: 1, role: ToolRole::Secondary }));
    s.choose_page(3, 3);
    assert_eq!(s.page(), SettingsPage::Debug);
    assert!(matches!(s.browse(ToolRole::Primary), SettingsOutcome::Idle));
    assert_eq!(contribution_section(SettingsPage::Contribution(4)), Some(4));
    assert_eq!(contribution_section(SettingsPage::Debug), None);
}

#[test]
fn the_buttons_answer_by_their_commands() {
    let mut s = SettingsSurface::new();
    s.set_page(SettingsPage::Contribution(2));
    s.open(vec!["x".to_owned()], 0);
    let (o, handled) = s.command("toolchain.browse");
    assert!(handled);
    assert!(matches!(o, SettingsOutcome::Browse { section: 2, role: ToolRole::Primary }));
    let (o, handled) = s.command("outra.coisa");
    assert!(!handled);
    assert!(matches!(o, SettingsOutcome::Idle));
    assert!(s.is_open());
    let (_, handled) = s.command("settings.cancel");
    assert!(handled);
    assert!(!s.is_open());
}

#[test]
fn connecting_checks_the_target_first() {
    let mut s = SettingsSurface::new();
    s.set_page(SettingsPage::Debug);
    s.open(Vec::new(), 0);
    s.focus_field(Some(DebugField::Port));
    assert_eq!(s.field_key("Backspace").is_some(), true);
    assert_eq!(s.debug_port, "800");
    assert!(s.text_input("1"));
    assert_eq!(s.debug_port, "8001");
    s.focus_field(Some(DebugField::Host));
    for _ in 0..9 {
        s.field_key("Backspace");
    }
    assert_eq!(s.debug_host, "");
    match s.field_key("Enter") {
        Some(SettingsOutcome::Idle) => {}
        outro => panic!("{outro:?}"),
    }
    assert_eq!(
        s.dialog.as_ref().and_then(|d| d.message.as_deref()),
        Some("Informe um host e uma porta de depuração válidos.")
    );
    assert!(s.text_input("alvo"));
    match s.field_key("Enter") {
        Some(SettingsOutcome::Attach { host, port }) => {
            assert_eq!(host, "alvo");
            assert_eq!(port, 8001);
        }
        outro => panic!("{outro:?}"),
    }
    assert!(!s.is_open());
    assert!(s.field_key("Backspace").is_none(), "sem campo em foco, a tecla segue adiante");
    assert!(!s.text_input("x"));
}
