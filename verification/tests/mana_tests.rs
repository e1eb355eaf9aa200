use mtg_engine::mana::{Color, Mana};

#[test]
fn test_color() {
    assert_eq!(
        Mana::from("RG"),
        Mana::from([(Color::Red, 1), (Color::Green, 1)])
    );
}

#[test]
fn test_colorless() {
    assert_eq!(Mana::from("4"), Mana::from([(Color::Colorless, 4)]));
}

#[test]
fn test_any() {
    assert_eq!(Mana::from("*"), Mana::from([(Color::Any, 1)]));
    assert_eq!(Mana::from("***"), Mana::from([(Color::Any, 3)]));
}

#[test]
fn test_combined() {
    assert_eq!(
        Mana::from("3UU"),
        Mana::from([(Color::Colorless, 3), (Color::Blue, 2)])
    );
}

#[test]
fn test_multicolor() {
    assert_eq!(
        Mana::from("2BBWW"),
        Mana::from([(Color::Colorless, 2), (Color::Black, 2), (Color::White, 2)])
    );
}

#[test]
fn test_enough() {
    assert!(Mana::from("UURR").enough(&Mana::from("UR")));
}

#[test]
fn test_enough_colorless() {
    assert!(Mana::from("5").enough(&Mana::from("2")));
}

#[test]
fn test_enough_colored_as_colorless() {
    assert!(Mana::from("UURR").enough(&Mana::from("3")));
}

#[test]
fn test_cmc() {
    assert_eq!(Mana::from("3").cmc(), 3);
    assert_eq!(Mana::from("R").cmc(), 1);
    assert_eq!(Mana::from("UW").cmc(), 2);
    assert_eq!(Mana::from("1U").cmc(), 2);
    assert_eq!(Mana::from("2WWBB").cmc(), 6);
}

#[test]
fn test_empty_mana_string() {
    assert_eq!(Mana::from(""), Mana::new());
}

#[test]
fn test_enough_zero_cost() {
    assert!(Mana::new().enough(&Mana::new()));
    assert!(Mana::from("R").enough(&Mana::new()));
}

#[test]
fn test_not_enough_colored() {
    assert!(!Mana::from("3").enough(&Mana::from("R")));
    assert!(!Mana::from("R").enough(&Mana::from("RR")));
}

#[test]
fn test_pick_any() {
    let picked = Mana::from("WUB").pick_any(2).unwrap();
    assert_eq!(picked.cmc(), 2);
    assert!(Mana::from("W").pick_any(2).is_none());
}

#[test]
fn test_mana_get_set() {
    let mut mana = Mana::new();
    mana.set(&Color::Green, 3);
    assert_eq!(mana.get(&Color::Green), 3);
    assert!(mana.has(&Color::Green));
    assert!(!mana.has(&Color::Red));
}

#[test]
fn test_iter_skips_empty_components() {
    let listed = Mana::from("2R").iter();
    assert_eq!(listed, vec![(Color::Red, 1), (Color::Colorless, 2)]);
}
