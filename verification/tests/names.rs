use webrtc_demo_server::names::capitalize;
use webrtc_demo_server::names::generate;
use webrtc_demo_server::names::name_for;
use webrtc_demo_server::names::to_upper;
use webrtc_demo_server::names::ADJECTIVES;
use webrtc_demo_server::names::NOUNS;

#[test]
fn name_for_capitalizes_and_joins() {
    assert_eq!(name_for(11, 2), "Clever Badger");
    assert_eq!(name_for(0, 0), "Accidental Aardvark");
    assert_eq!(name_for(56, 40), "Zany Zebra");
}

#[test]
fn name_for_takes_remainders() {
    assert_eq!(name_for(57 + 11, 41 * 3 + 2), "Clever Badger");
    assert_eq!(name_for(usize::MAX, usize::MAX), name_for(usize::MAX % 57, usize::MAX % 41));
}

#[test]
fn capitalize_touches_the_first_letter_only() {
    assert_eq!(capitalize("badger"), "Badger");
    assert_eq!(capitalize(""), "");
    assert_eq!(capitalize("Badger"), "Badger");
    assert_eq!(capitalize("9lives"), "9lives");
    assert_eq!(capitalize("éa"), "éa");
    assert_eq!(capitalize("zz"), "Zz");
}

#[test]
fn to_upper_is_ascii_only() {
    assert_eq!(to_upper('a'), 'A');
    assert_eq!(to_upper('z'), 'Z');
    assert_eq!(to_upper('A'), 'A');
    assert_eq!(to_upper('`'), '`');
    assert_eq!(to_upper('{'), '{');
    assert_eq!(to_upper('ß'), 'ß');
}

#[test]
fn generated_names_come_from_the_word_lists() {
    for _ in 0..200 {
        let name = generate();
        let mut words = name.split(' ');
        let adjective = words.next().unwrap().to_ascii_lowercase();
        let noun = words.next().unwrap().to_ascii_lowercase();
        assert!(words.next().is_none());
        assert!(ADJECTIVES.contains(&adjective.as_str()));
        assert!(NOUNS.contains(&noun.as_str()));
        assert!(name.chars().next().unwrap().is_ascii_uppercase());
    }
}

#[test]
fn generated_names_vary() {
    let first = generate();
    let mut differs = false;
    for _ in 0..100 {
        if generate() != first {
            differs = true;
        }
    }
    assert!(differs);
}
