//! A random name generator to identify clients.

use vstd::prelude::*;
use vstd::string::StringExecFns;

verus! {

/// The number of adjectives to choose from.
pub const ADJECTIVE_COUNT: usize = 57;

/// The number of nouns to choose from.
pub const NOUN_COUNT: usize = 41;

/// The adjectives that names start with.
pub const ADJECTIVES: [&'static str; 57] = [
    "accidental",
    "accurate",
    "ancient",
    "animated",
    "boundless",
    "bright",
    "capable",
    "careful",
    "charming",
    "chivalrous",
    "classy",
    "clever",
    "cluttered",
    "crowded",
    "cuddly",
    "cultured",
    "defiant",
    "diligent",
    "efficient",
    "enchanted",
    "endurable",
    "entertaining",
    "enthusiastic",
    "exuberant",
    "fabulous",
    "friendly",
    "glorious",
    "groovy",
    "hilarious",
    "holistic",
    "honorable",
    "inquisitive",
    "instinctive",
    "invincible",
    "knowledgeable",
    "literate",
    "luxuriant",
    "nebulous",
    "obsequious",
    "overjoyed",
    "periodic",
    "polite",
    "quizzical",
    "serious",
    "sharp",
    "shiny",
    "silent",
    "skillful",
    "splendid",
    "spotless",
    "steady",
    "sturdy",
    "successful",
    "succinct",
    "swanky",
    "terrific",
    "zany",
];

/// The nouns that names end with.
pub const NOUNS: [&'static str; 41] = [
    "aardvark",
    "alpaca",
    "badger",
    "bear",
    "beaver",
    "buffalo",
    "butterfly",
    "camel",
    "caribou",
    "cheetah",
    "chimpanzee",
    "crow",
    "dinosaur",
    "dolphin",
    "elephant",
    "giraffe",
    "goldfish",
    "grasshopper",
    "kangaroo",
    "koala",
    "lion",
    "horse",
    "mallard",
    "manatee",
    "monkey",
    "moose",
    "mouse",
    "panda",
    "platypus",
    "porcupine",
    "rabbit",
    "raccoon",
    "reindeer",
    "rhinoceros",
    "snail",
    "squirrel",
    "swan",
    "tiger",
    "turkey",
    "walrus",
    "zebra",
];

/// The upper-case form of an ASCII lower-case letter; any other character
/// stays as it is.
pub open spec fn upper(c: char) -> char {
    if 'a' <= c && c <= 'z' {
        ((c as u8) - 32) as char
    } else {
        c
    }
}

/// `word` with its first character in upper case.
pub open spec fn capitalized(word: Seq<char>) -> Seq<char> {
    if word.len() == 0 {
        word
    } else {
        seq![upper(word[0])] + word.skip(1)
    }
}

/// The name made of the adjective at index `adjective` and the noun at index
/// `noun`: both capitalized, with one space between them.
pub open spec fn name_of(adjective: int, noun: int) -> Seq<char> {
    capitalized(ADJECTIVES@[adjective]@) + seq![' '] + capitalized(NOUNS@[noun]@)
}

/// `name` is one of the names that the generator makes.
pub open spec fn is_generated(name: Seq<char>) -> bool {
    exists|adjective: int, noun: int|
        0 <= adjective < ADJECTIVE_COUNT && 0 <= noun < NOUN_COUNT && name == #[trigger] name_of(
            adjective,
            noun,
        )
}

/// Turns an ASCII lower-case letter into its upper-case form.
pub fn to_upper(c: char) -> (u: char)
    ensures
        u == upper(c),
{
    if 'a' <= c && c <= 'z' {
        ((c as u8) - 32) as char
    } else {
        c
    }
}

/// Appends `c` to `text` by `String::push`. Taken on trust, from the
/// documentation of `String::push`: that the character is added at the end
/// and the rest is left as it was.
#[verifier::external_body]
fn push_char(text: &mut String, c: char)
    ensures
        final(text)@ == old(text)@.push(c),
{
    text.push(c)
}

/// Draws a number by `rand::random`, from the random generator of the
/// current thread. Nothing is claimed of the number.
#[verifier::external_body]
fn random_usize() -> (n: usize) {
    rand::random::<usize>()
}

/// Copies `word` with its first character in upper case.
pub fn capitalize(word: &str) -> (text: String)
    ensures
        text@ == capitalized(word@),
{
    let mut text = String::new();
    let mut first = true;
    for c in it: word.chars()
        invariant
            first == (it.index() == 0),
            it.seq() == word@,
            text@ == capitalized(word@).take(it.index() as int),
    {
        if first {
            push_char(&mut text, to_upper(c));
            first = false;
        } else {
            push_char(&mut text, c);
        }
        assert(text@ =~= capitalized(word@).take(it.index() + 1));
    }
    assert(text@ =~= capitalized(word@));
    text
}

/// The name that the generator makes of two numbers drawn at random: the
/// first picks the adjective and the second the noun, each by its remainder.
pub fn name_for(first: usize, second: usize) -> (name: String)
    ensures
        name@ == name_of(first as int % ADJECTIVE_COUNT as int, second as int % NOUN_COUNT as int),
        is_generated(name@),
{
    let adjective = ADJECTIVES[first % ADJECTIVE_COUNT];
    let noun = NOUNS[second % NOUN_COUNT];
    let mut name = capitalize(adjective);
    let noun = capitalize(noun);
    proof {
        reveal_strlit(" ");
    }
    name.append(" ");
    name.append(noun.as_str());
    assert(" "@ =~= seq![' ']);
    name
}

/// Generate a random name.
pub fn generate() -> (name: String)
    ensures
        is_generated(name@),
{
    name_for(random_usize(), random_usize())
}

} // verus!
