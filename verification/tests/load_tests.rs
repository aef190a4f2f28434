use magicdb::json::CardError;
use magicdb::json::Field;
use magicdb::json::JsonValue;
use magicdb::mana::Color;
use magicdb::mana::Mana;
use magicdb::BuilderError;
use magicdb::Card;
use magicdb::Catalog;
use magicdb::CardFace;
use magicdb::ExtraInfo;
use magicdb::from_json;
use magicdb::from_str;

fn single_face<'a>(cat: &'a Catalog, name: &str) -> &'a CardFace {
    match cat.get(name) {
        Some(Card::SingleFace(i)) => cat.face(*i).unwrap(),
        other => panic!("expected a single-face card for {}, got {:?}", name, other),
    }
}

#[test]
fn load_test() {
    let json_str = r#"{
        "Air Elemental": {
            "layout": "normal",
            "name": "Air Elemental",
            "manaCost": "{3}{U}{U}",
            "cmc": 5,
            "colors": ["Blue"],
            "type": "Creature — Elemental",
            "types": ["Creature"],
            "subtypes": ["Elemental"],
            "text": "Flying",
            "power": "4",
            "toughness": "4",
            "imageName": "air elemental"
        },
        "Ashiok, Nightmare Weaver": {
            "layout": "normal",
            "name": "Ashiok, Nightmare Weaver",
            "manaCost": "{1}{U}{B}",
            "cmc": 3,
            "colors": ["Blue", "Black"],
            "type": "Planeswalker — Ashiok",
            "types": ["Planeswalker"],
            "subtypes": ["Ashiok"],
            "text": "+2: Exile the top three cards of target opponent's library.\n−X: Put a creature card with converted mana cost X exiled with Ashiok, Nightmare Weaver onto the battlefield under your control. That creature is a Nightmare in addition to its other types.\n−10: Exile all cards from all opponents' hands and graveyards.",
            "loyalty": 3,
            "imageName": "ashiok, nightmare weaver"
        },
        "Budoka Pupil": {
            "layout": "flip",
            "name": "Budoka Pupil",
            "names": ["Budoka Pupil", "Ichiga, Who Topples Oaks"],
            "manaCost": "{1}{G}{G}",
            "cmc": 3,
            "colors": ["Green"],
            "type": "Creature — Human Monk",
            "types": ["Creature"],
            "subtypes": ["Human", "Monk"],
            "text": "Whenever you cast a Spirit or Arcane spell, you may put a ki counter on Budoka Pupil.\nAt the beginning of the end step, if there are two or more ki counters on Budoka Pupil, you may flip it.",
            "power": "2",
            "toughness": "2",
            "imageName": "budoka pupil"
        },
        "Forest": {
            "layout": "normal",
            "name": "Forest",
            "type": "Basic Land — Forest",
            "supertypes": ["Basic"],
            "types": ["Land"],
            "subtypes": ["Forest"],
            "imageName": "forest"
        },
        "Ichiga, Who Topples Oaks": {
            "layout": "flip",
            "name": "Ichiga, Who Topples Oaks",
            "names": ["Budoka Pupil", "Ichiga, Who Topples Oaks"],
            "manaCost": "{1}{G}{G}",
            "cmc": 3,
            "colors": ["Green"],
            "type": "Legendary Creature — Spirit",
            "supertypes": ["Legendary"],
            "types": ["Creature"],
            "subtypes": ["Spirit"],
            "text": "Trample\nRemove a ki counter from Ichiga, Who Topples Oaks: Target creature gets +2/+2 until end of turn.",
            "power": "4",
            "toughness": "3",
            "imageName": "ichiga, who topples oaks"
        }
    }"#;
    let db = from_str(json_str);
    assert!(db.is_ok());
    let db = db.unwrap();
    let air_elemental = db.get("Air Elemental");
    let ashiok = db.get("Ashiok, Nightmare Weaver");
    let budoka = db.get("Budoka Pupil");
    let forest = db.get("Forest");
    assert!(air_elemental.is_some());
    assert!(budoka.is_some());
    assert!(ashiok.is_some());
    assert!(forest.is_some());
    let air_face = single_face(&db, "Air Elemental");
    assert_eq!(air_face.name.as_str(), "Air Elemental");
    assert_eq!(
        air_face.mana.clone().unwrap(),
        vec![
            Mana::Colorless(3),
            Mana::Colored(Color::Blue),
            Mana::Colored(Color::Blue)
        ]
    );
    assert!(match air_face.extra {
        ExtraInfo::PowerToughness(ref p, ref t) => {
            assert!(p.as_str() == "4");
            assert!(t.as_str() == "4");
            true
        }
        _ => false,
    });
    let (budoka_own, budoka_other) = match budoka.unwrap() {
        Card::TwoFace(i, j) => (*i, *j),
        other => panic!("expected a two-face card, got {:?}", other),
    };
    assert_eq!(db.face(budoka_own).unwrap().name.as_str(), "Budoka Pupil");
    assert_eq!(
        db.face(budoka_other).unwrap().name.as_str(),
        "Ichiga, Who Topples Oaks"
    );
}

#[test]
fn two_face_pair_shares_faces() {
    let json_str = r#"{
        "Budoka Pupil": {
            "layout": "flip",
            "name": "Budoka Pupil",
            "names": ["Budoka Pupil", "Ichiga, Who Topples Oaks"],
            "imageName": "budoka pupil"
        },
        "Ichiga, Who Topples Oaks": {
            "layout": "flip",
            "name": "Ichiga, Who Topples Oaks",
            "names": ["Budoka Pupil", "Ichiga, Who Topples Oaks"],
            "imageName": "ichiga, who topples oaks"
        }
    }"#;
    let db = from_str(json_str).unwrap();
    let (bi, bj) = match db.get("Budoka Pupil").unwrap() {
        Card::TwoFace(i, j) => (*i, *j),
        other => panic!("expected a two-face card, got {:?}", other),
    };
    let (ii, ij) = match db.get("Ichiga, Who Topples Oaks").unwrap() {
        Card::TwoFace(i, j) => (*i, *j),
        other => panic!("expected a two-face card, got {:?}", other),
    };
    // the published pair is symmetric and shares the very same arena faces
    assert_eq!((ii, ij), (bj, bi));
    assert_eq!(db.face(bj).unwrap().name.as_str(), "Ichiga, Who Topples Oaks");
    assert_eq!(db.card_count(), 2);
    assert_eq!(db.face_count(), 2);
}

#[test]
fn normal_card_reflects_fields_exactly() {
    let json_str = r#"{
        "Forest": {
            "layout": "normal",
            "name": "Forest",
            "imageName": "forest"
        },
        "Island Fort": {
            "layout": "normal",
            "name": "Island Fort",
            "manaCost": "{2/W}",
            "colors": ["White"],
            "imageName": "island fort"
        }
    }"#;
    let db = from_str(json_str).unwrap();
    let forest = single_face(&db, "Forest");
    assert_eq!(forest.mana, None);
    assert_eq!(forest.color, None);
    assert_eq!(forest.text, None);
    assert_eq!(forest.extra, ExtraInfo::NoExtra);
    let fort = single_face(&db, "Island Fort");
    assert_eq!(
        fort.mana,
        Some(vec![Mana::ColorlessHybrid(2, Color::White)])
    );
    assert_eq!(fort.color, Some(vec![Color::White]));
}

#[test]
fn leveler_layout_is_single_face() {
    let json_str = r#"{
        "Riser": {
            "layout": "leveler",
            "name": "Riser",
            "supertypes": ["Legendary", "Snow"],
            "flavorText": "It grows.",
            "imageName": "riser"
        }
    }"#;
    let db = from_str(json_str).unwrap();
    let face = single_face(&db, "Riser");
    assert_eq!(
        face.supertypes,
        Some(vec!["Legendary".to_string(), "Snow".to_string()])
    );
    assert_eq!(face.flavor_text, Some("It grows.".to_string()));
}

#[test]
fn special_layouts_publish_special_cards() {
    let json_str = r#"{
        "Goblin": {
            "layout": "token",
            "name": "Goblin",
            "imageName": "goblin"
        }
    }"#;
    let db = from_str(json_str).unwrap();
    assert!(matches!(db.get("Goblin"), Some(Card::Special(_))));
}

#[test]
fn many_face_group_links_every_member() {
    let json_str = r#"{
        "Alpha": {
            "layout": "split",
            "name": "Alpha",
            "names": ["Alpha", "Beta", "Gamma"],
            "imageName": "alpha"
        },
        "Beta": {
            "layout": "split",
            "name": "Beta",
            "names": ["Alpha", "Beta", "Gamma"],
            "imageName": "beta"
        },
        "Gamma": {
            "layout": "split",
            "name": "Gamma",
            "names": ["Alpha", "Beta", "Gamma"],
            "imageName": "gamma"
        }
    }"#;
    let db = from_str(json_str).unwrap();
    assert_eq!(db.card_count(), 3);
    let (ai, aothers) = match db.get("Alpha").unwrap() {
        Card::ManyFace(i, o) => (*i, o.clone()),
        other => panic!("expected a many-face card, got {:?}", other),
    };
    assert_eq!(db.face(ai).unwrap().name.as_str(), "Alpha");
    let names: Vec<String> = aothers
        .iter()
        .map(|j| db.face(*j).unwrap().name.clone())
        .collect();
    assert_eq!(names, vec!["Beta".to_string(), "Gamma".to_string()]);
    // each member shares Alpha's face by index
    match db.get("Beta").unwrap() {
        Card::ManyFace(_, o) => assert!(o.contains(&ai)),
        other => panic!("expected a many-face card, got {:?}", other),
    }
}

#[test]
fn resolved_pair_is_not_reprocessed() {
    // once Alpha links the pair, Beta's own entry is left as Alpha
    // published it, layout field unread
    let json_str = r#"{
        "Alpha": {
            "layout": "flip",
            "name": "Alpha",
            "names": ["Alpha", "Beta"],
            "imageName": "alpha"
        },
        "Beta": {
            "layout": "normal",
            "name": "Beta",
            "imageName": "beta"
        }
    }"#;
    let db = from_str(json_str).unwrap();
    assert_eq!(db.get("Alpha"), Some(&Card::TwoFace(0, 1)));
    assert_eq!(db.get("Beta"), Some(&Card::TwoFace(1, 0)));
}

#[test]
fn top_level_array_fails() {
    assert_eq!(
        from_str("[1, 2, 3]"),
        Err(BuilderError::NoTopLevelObject)
    );
}

#[test]
fn invalid_layout_fails() {
    let json_str = r#"{
        "Oddity": {
            "layout": "sideways",
            "name": "Oddity",
            "imageName": "oddity"
        }
    }"#;
    assert_eq!(
        from_str(json_str),
        Err(BuilderError::Named(
            "Oddity".to_string(),
            CardError::InvalidField(Field::Layout)
        ))
    );
}

#[test]
fn names_without_own_name_fails() {
    let json_str = r#"{
        "Left": {
            "layout": "split",
            "name": "Left",
            "names": ["Right", "Right"],
            "imageName": "left"
        },
        "Right": {
            "layout": "split",
            "name": "Right",
            "names": ["Left", "Right"],
            "imageName": "right"
        }
    }"#;
    assert_eq!(
        from_str(json_str),
        Err(BuilderError::Named(
            "Left".to_string(),
            CardError::InvalidField(Field::Names)
        ))
    );
}

#[test]
fn names_with_own_name_twice_fails() {
    let json_str = r#"{
        "Left": {
            "layout": "split",
            "name": "Left",
            "names": ["Left", "Left"],
            "imageName": "left"
        }
    }"#;
    assert_eq!(
        from_str(json_str),
        Err(BuilderError::Named(
            "Left".to_string(),
            CardError::InvalidField(Field::Names)
        ))
    );
}

#[test]
fn dangling_companion_fails() {
    let json_str = r#"{
        "Left": {
            "layout": "split",
            "name": "Left",
            "names": ["Left", "Missing"],
            "imageName": "left"
        }
    }"#;
    assert_eq!(
        from_str(json_str),
        Err(BuilderError::Named(
            "Left".to_string(),
            CardError::InvalidField(Field::Names)
        ))
    );
}

#[test]
fn one_invalid_card_fails_and_is_named() {
    let json_str = r#"{
        "Alpha Wolf": {
            "layout": "normal",
            "name": "Alpha Wolf",
            "imageName": "alpha wolf"
        },
        "Broken One": {
            "layout": "normal",
            "name": "Broken One",
            "manaCost": "{Q}",
            "imageName": "broken one"
        },
        "Zeta Drake": {
            "layout": "normal",
            "name": "Zeta Drake",
            "imageName": "zeta drake"
        }
    }"#;
    assert_eq!(
        from_str(json_str),
        Err(BuilderError::Named(
            "Broken One".to_string(),
            CardError::InvalidField(Field::ManaCost)
        ))
    );
}

#[test]
fn power_without_toughness_fails() {
    let json_str = r#"{
        "Lonely Bear": {
            "layout": "normal",
            "name": "Lonely Bear",
            "power": "2",
            "imageName": "lonely bear"
        }
    }"#;
    assert_eq!(
        from_str(json_str),
        Err(BuilderError::Named(
            "Lonely Bear".to_string(),
            CardError::NoField(Field::Toughness)
        ))
    );
}

#[test]
fn missing_required_field_fails() {
    let json_str = r#"{
        "Nameless": {
            "layout": "normal",
            "name": "Nameless"
        }
    }"#;
    assert_eq!(
        from_str(json_str),
        Err(BuilderError::Named(
            "Nameless".to_string(),
            CardError::NoField(Field::ImageName)
        ))
    );
}

#[test]
fn unknown_color_name_fails() {
    let json_str = r#"{
        "Odd Hue": {
            "layout": "normal",
            "name": "Odd Hue",
            "colors": ["Chartreuse"],
            "imageName": "odd hue"
        }
    }"#;
    assert_eq!(
        from_str(json_str),
        Err(BuilderError::Named(
            "Odd Hue".to_string(),
            CardError::InvalidField(Field::Colors)
        ))
    );
}

#[test]
fn entry_that_is_not_an_object_fails() {
    let json_str = r#"{ "Oops": 5 }"#;
    assert_eq!(
        from_str(json_str),
        Err(BuilderError::InvalidCardObject("Oops".to_string()))
    );
}

#[test]
fn unparsable_text_fails_with_json_error() {
    assert!(matches!(from_str("{ not json"), Err(BuilderError::Json(_))));
}

#[test]
fn loyalty_becomes_starting_loyalty() {
    let json_str = r#"{
        "Planewalker": {
            "layout": "normal",
            "name": "Planewalker",
            "loyalty": 3,
            "imageName": "planewalker"
        }
    }"#;
    let db = from_str(json_str).unwrap();
    let face = single_face(&db, "Planewalker");
    assert_eq!(face.extra, ExtraInfo::StartingLoyalty(3));
}

#[test]
fn from_json_takes_a_built_tree() {
    let card = JsonValue::Object(vec![
        ("layout".to_string(), JsonValue::Str("normal".to_string())),
        ("name".to_string(), JsonValue::Str("Built".to_string())),
        (
            "imageName".to_string(),
            JsonValue::Str("built".to_string()),
        ),
        (
            "types".to_string(),
            JsonValue::Array(vec![JsonValue::Str("Creature".to_string())]),
        ),
    ]);
    let doc = JsonValue::Object(vec![("Built".to_string(), card)]);
    let db = from_json(&doc).unwrap();
    let face = single_face(&db, "Built");
    assert_eq!(face.name.as_str(), "Built");
    assert_eq!(face.types, Some(vec!["Creature".to_string()]));
    assert_eq!(db.get("Absent"), None);
    // a malformed field in a built tree is rejected, not coerced
    let bad = JsonValue::Object(vec![(
        "Bad".to_string(),
        JsonValue::Object(vec![
            ("layout".to_string(), JsonValue::Str("normal".to_string())),
            ("name".to_string(), JsonValue::Int(7)),
            ("imageName".to_string(), JsonValue::Str("bad".to_string())),
        ]),
    )]);
    assert_eq!(
        from_json(&bad),
        Err(BuilderError::Named(
            "Bad".to_string(),
            CardError::InvalidField(Field::Name)
        ))
    );
}
