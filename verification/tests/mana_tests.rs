use magicdb::json::CardError;
use magicdb::json::Field;
use magicdb::mana::Color;
use magicdb::mana::Frag;
use magicdb::mana::Mana;
use magicdb::mana::mana_step;
use magicdb::mana::read_color_ch;
use magicdb::mana::read_color_st;
use magicdb::mana::read_mana_st;

#[test]
fn parse_simple_cost() {
    assert_eq!(
        read_mana_st("{3}{U}{U}"),
        Ok(vec![
            Mana::Colorless(3),
            Mana::Colored(Color::Blue),
            Mana::Colored(Color::Blue)
        ])
    );
}

#[test]
fn parse_hybrid() {
    assert_eq!(
        read_mana_st("{W/U}"),
        Ok(vec![Mana::Hybrid(Color::White, Color::Blue)])
    );
}

#[test]
fn parse_colorless_hybrid() {
    assert_eq!(
        read_mana_st("{2/W}"),
        Ok(vec![Mana::ColorlessHybrid(2, Color::White)])
    );
}

#[test]
fn parse_half() {
    assert_eq!(read_mana_st("{HW}"), Ok(vec![Mana::Half(Color::White)]));
}

#[test]
fn reject_half_left_pending() {
    // the half flag must be completed by a color letter before the
    // fragment may close
    assert_eq!(
        read_mana_st("{H}{W}"),
        Err(CardError::InvalidField(Field::ManaCost))
    );
}

#[test]
fn parse_phyrexian() {
    assert_eq!(
        read_mana_st("{W/P}"),
        Ok(vec![Mana::PhyrexianHybrid(Color::White)])
    );
}

#[test]
fn parse_arbitrary() {
    assert_eq!(read_mana_st("{X}"), Ok(vec![Mana::Arbitrary(0)]));
    assert_eq!(
        read_mana_st("{X}{Y}{Z}"),
        Ok(vec![
            Mana::Arbitrary(0),
            Mana::Arbitrary(1),
            Mana::Arbitrary(2)
        ])
    );
}

#[test]
fn parse_multi_digit() {
    assert_eq!(read_mana_st("{16}"), Ok(vec![Mana::Colorless(16)]));
}

#[test]
fn parse_empty_string() {
    assert_eq!(read_mana_st(""), Ok(vec![]));
}

#[test]
fn parse_case_insensitive() {
    assert_eq!(
        read_mana_st("{w/u}"),
        Ok(vec![Mana::Hybrid(Color::White, Color::Blue)])
    );
    assert_eq!(read_mana_st("{hg}"), Ok(vec![Mana::Half(Color::Green)]));
    assert_eq!(read_mana_st("{x}"), Ok(vec![Mana::Arbitrary(0)]));
}

#[test]
fn reject_unterminated() {
    assert_eq!(
        read_mana_st("{W"),
        Err(CardError::InvalidField(Field::ManaCost))
    );
}

#[test]
fn reject_unopened() {
    assert_eq!(
        read_mana_st("}"),
        Err(CardError::InvalidField(Field::ManaCost))
    );
}

#[test]
fn reject_double_open() {
    assert_eq!(
        read_mana_st("{{W}}"),
        Err(CardError::InvalidField(Field::ManaCost))
    );
}

#[test]
fn reject_stray_letter() {
    assert_eq!(
        read_mana_st("{Q}"),
        Err(CardError::InvalidField(Field::ManaCost))
    );
}

#[test]
fn reject_empty_braces() {
    assert_eq!(
        read_mana_st("{}"),
        Err(CardError::InvalidField(Field::ManaCost))
    );
}

#[test]
fn reject_dangling_split() {
    assert_eq!(
        read_mana_st("{W/}"),
        Err(CardError::InvalidField(Field::ManaCost))
    );
}

#[test]
fn reject_phyrexian_without_split() {
    assert_eq!(
        read_mana_st("{P}"),
        Err(CardError::InvalidField(Field::ManaCost))
    );
}

#[test]
fn reject_symbol_outside_braces() {
    assert_eq!(
        read_mana_st("W"),
        Err(CardError::InvalidField(Field::ManaCost))
    );
}

#[test]
fn colorless_amount_at_limit() {
    assert_eq!(
        read_mana_st("{4294967295}"),
        Ok(vec![Mana::Colorless(u32::MAX)])
    );
}

#[test]
fn reject_colorless_amount_overflow() {
    assert_eq!(
        read_mana_st("{4294967296}"),
        Err(CardError::InvalidField(Field::ManaCost))
    );
}

#[test]
fn step_transitions() {
    // opening a fragment is only legal when none is open
    assert_eq!(
        mana_step(Frag::Closed, false, false, '{'),
        Some((Frag::OpenEmpty, false, false, None))
    );
    assert_eq!(mana_step(Frag::OpenEmpty, false, false, '{'), None);
    // closing emits the completed symbol and clears the state
    assert_eq!(
        mana_step(
            Frag::OpenWith(Mana::Colored(Color::Red)),
            false,
            false,
            '}'
        ),
        Some((Frag::Closed, false, false, Some(Mana::Colored(Color::Red))))
    );
    // a split must be completed before the fragment may close
    assert_eq!(
        mana_step(Frag::OpenWith(Mana::Colored(Color::Red)), false, true, '}'),
        None
    );
    // a color letter under the split flag combines into a hybrid
    assert_eq!(
        mana_step(Frag::OpenWith(Mana::Colored(Color::Red)), false, true, 'G'),
        Some((
            Frag::OpenWith(Mana::Hybrid(Color::Red, Color::Green)),
            false,
            false,
            None
        ))
    );
    // a digit extends a colorless amount tenfold
    assert_eq!(
        mana_step(Frag::OpenWith(Mana::Colorless(1)), false, false, '6'),
        Some((Frag::OpenWith(Mana::Colorless(16)), false, false, None))
    );
}

#[test]
fn color_letters() {
    assert_eq!(read_color_ch('W'), Some(Color::White));
    assert_eq!(read_color_ch('u'), Some(Color::Blue));
    assert_eq!(read_color_ch('B'), Some(Color::Black));
    assert_eq!(read_color_ch('r'), Some(Color::Red));
    assert_eq!(read_color_ch('G'), Some(Color::Green));
    assert_eq!(read_color_ch('Q'), None);
}

#[test]
fn color_names() {
    assert_eq!(read_color_st(&"White".to_string()), Some(Color::White));
    assert_eq!(read_color_st(&"BLUE".to_string()), Some(Color::Blue));
    assert_eq!(read_color_st(&"black".to_string()), Some(Color::Black));
    assert_eq!(read_color_st(&"rEd".to_string()), Some(Color::Red));
    assert_eq!(read_color_st(&"Green".to_string()), Some(Color::Green));
    assert_eq!(read_color_st(&"Purple".to_string()), None);
    assert_eq!(read_color_st(&"".to_string()), None);
}
