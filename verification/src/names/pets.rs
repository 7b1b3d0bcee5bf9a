//! Names made of an animal and words that describe it.
use vstd::prelude::*;

use crate::names::word_list::{drawn_words_are_listed, lists, random_choice, was_drawn};

verus! {

/// Animals.
pub const NOUNS: [[&'static str; 4]; 27] = [
    ["ant", "bat", "bear", "bee"],
    ["bison", "boar", "camel", "cat"],
    ["cobra", "cod", "colt", "crab"],
    ["crane", "crow", "cub", "deer"],
    ["dingo", "dog", "dove", "duck"],
    ["eagle", "eel", "elk", "emu"],
    ["falcon", "ferret", "finch", "fish"],
    ["flea", "fox", "frog", "gecko"],
    ["gnu", "goat", "goose", "grouse"],
    ["gull", "hare", "hawk", "heron"],
    ["hippo", "horse", "hound", "ibex"],
    ["jackal", "jay", "kite", "koala"],
    ["lark", "lemur", "lion", "lizard"],
    ["llama", "lynx", "magpie", "moose"],
    ["moth", "mouse", "mule", "newt"],
    ["otter", "owl", "ox", "panda"],
    ["parrot", "pig", "pony", "prawn"],
    ["puma", "quail", "rabbit", "ram"],
    ["raven", "ray", "robin", "salmon"],
    ["seal", "shark", "sheep", "shrew"],
    ["shrimp", "skink", "skunk", "sloth"],
    ["snail", "snake", "sparrow", "squid"],
    ["stag", "stork", "swan", "tapir"],
    ["tiger", "toad", "trout", "turtle"],
    ["viper", "vole", "walrus", "wasp"],
    ["weasel", "whale", "wolf", "wombat"],
    ["worm", "wren", "yak", "zebra"],
];

/// Animals, more than one of each.
pub const NOUNS_PLURAL: [[&'static str; 4]; 27] = [
    ["ants", "bats", "bears", "bees"],
    ["bison", "boars", "camels", "cats"],
    ["cobras", "cod", "colts", "crabs"],
    ["cranes", "crows", "cubs", "deer"],
    ["dingos", "dogs", "doves", "ducks"],
    ["eagles", "eels", "elk", "emus"],
    ["falcons", "ferrets", "finches", "fish"],
    ["fleas", "foxes", "frogs", "geckos"],
    ["gnus", "goats", "geese", "grouse"],
    ["gulls", "hares", "hawks", "herons"],
    ["hippos", "horses", "hounds", "ibexes"],
    ["jackals", "jays", "kites", "koalas"],
    ["larks", "lemurs", "lions", "lizards"],
    ["llamas", "lynxes", "magpies", "moose"],
    ["moths", "mice", "mules", "newts"],
    ["otters", "owls", "oxen", "pandas"],
    ["parrots", "pigs", "ponies", "prawns"],
    ["pumas", "quails", "rabbits", "rams"],
    ["ravens", "rays", "robins", "salmon"],
    ["seals", "sharks", "sheep", "shrews"],
    ["shrimp", "skinks", "skunks", "sloths"],
    ["snails", "snakes", "sparrows", "squids"],
    ["stags", "storks", "swans", "tapirs"],
    ["tigers", "toads", "trout", "turtles"],
    ["vipers", "voles", "walruses", "wasps"],
    ["weasels", "whales", "wolves", "wombats"],
    ["worms", "wrens", "yaks", "zebras"],
];

/// Words that describe an animal.
pub const ADJECTIVES: [[&'static str; 4]; 40] = [
    ["able", "active", "alert", "amused"],
    ["apt", "artistic", "awake", "aware"],
    ["balanced", "big", "blessed", "bold"],
    ["brave", "brief", "bright", "busy"],
    ["calm", "capable", "caring", "casual"],
    ["central", "certain", "charmed", "chief"],
    ["choice", "civil", "classic", "clean"],
    ["clear", "clever", "close", "coherent"],
    ["cool", "correct", "crisp", "curious"],
    ["cute", "daring", "dear", "decent"],
    ["deep", "desired", "direct", "divine"],
    ["driven", "eager", "easy", "elegant"],
    ["eminent", "endless", "epic", "equal"],
    ["ethical", "exact", "exotic", "expert"],
    ["fair", "famous", "fast", "fine"],
    ["firm", "fit", "fleet", "fluent"],
    ["fond", "frank", "free", "fresh"],
    ["full", "fun", "funny", "generous"],
    ["gentle", "genuine", "giving", "glad"],
    ["golden", "good", "grand", "great"],
    ["growing", "guided", "handy", "happy"],
    ["hardy", "helped", "holy", "honest"],
    ["huge", "humane", "humble", "immense"],
    ["infinite", "intense", "just", "keen"],
    ["key", "kind", "known", "large"],
    ["lasting", "leading", "learning", "liberal"],
    ["light", "likable", "live", "logical"],
    ["loved", "loyal", "lucky", "magical"],
    ["major", "massive", "master", "mature"],
    ["merry", "mighty", "model", "modern"],
    ["modest", "moral", "musical", "mutual"],
    ["native", "natural", "neat", "neutral"],
    ["next", "nice", "noble", "normal"],
    ["noted", "novel", "open", "optimal"],
    ["organic", "patient", "peaceful", "polite"],
    ["popular", "precise", "premium", "pretty"],
    ["prime", "proper", "proud", "pure"],
    ["quick", "quiet", "rapid", "rare"],
    ["ready", "real", "refined", "relaxed"],
    ["rested", "rich", "right", "robust"],
];

/// Words that describe how.
pub const ADVERBS: [[&'static str; 4]; 29] = [
    ["ably", "actually", "amply", "barely"],
    ["boldly", "briefly", "calmly", "clearly"],
    ["dearly", "deeply", "directly", "duly"],
    ["eagerly", "early", "easily", "equally"],
    ["evenly", "exactly", "fairly", "firmly"],
    ["formally", "freely", "freshly", "fully"],
    ["gently", "gladly", "globally", "gratefully"],
    ["greatly", "happily", "heavily", "highly"],
    ["hugely", "ideally", "jointly", "justly"],
    ["keenly", "kindly", "largely", "lately"],
    ["legally", "lightly", "likely", "literally"],
    ["lively", "locally", "loosely", "loudly"],
    ["luckily", "mainly", "mildly", "mostly"],
    ["mutually", "namely", "nationally", "naturally"],
    ["nearly", "neatly", "newly", "nicely"],
    ["nominally", "notably", "openly", "overly"],
    ["partly", "plainly", "politely", "possibly"],
    ["precisely", "presently", "primarily", "probably"],
    ["promptly", "properly", "purely", "quickly"],
    ["quietly", "randomly", "rapidly", "rarely"],
    ["really", "reliably", "rightly", "safely"],
    ["sharply", "shortly", "simply", "sincerely"],
    ["slightly", "slowly", "smoothly", "socially"],
    ["solely", "steadily", "strangely", "strictly"],
    ["strongly", "suddenly", "surely", "swiftly"],
    ["thinly", "truly", "urgently", "usually"],
    ["utterly", "vastly", "virtually", "visually"],
    ["vitally", "vividly", "warmly", "wholly"],
    ["widely", "wildly", "willingly", "yearly"],
];

/// What a name is made of.
#[derive(Copy, Clone, Debug)]
pub struct NameConfig {
    /// The number of words: an animal, an adjective before it, and adverbs before that.
    pub parts: u8,
}

/// The list that a word is drawn from, by its distance from the end of the name.
pub open spec fn pet_words(place: int, plural_noun: bool) -> Seq<[&'static str; 4]> {
    if place == 0 {
        if plural_noun {
            NOUNS_PLURAL@
        } else {
            NOUNS@
        }
    } else if place == 1 {
        ADJECTIVES@
    } else {
        ADVERBS@
    }
}

/// Whether `words` name a pet: an animal at the end, an adjective before it, adverbs before that, each
/// drawn from its list.
pub open spec fn is_pet_name(parts: u8, plural_noun: bool, words: Seq<&'static str>) -> bool {
    &&& words.len() == parts
    &&& forall|i: int|
        0 <= i < words.len() ==> was_drawn(pet_words(parts - 1 - i, plural_noun), #[trigger] words[i])
}

/// A random name.
pub fn pet_name(config: &NameConfig) -> (words: Vec<&'static str>)
    ensures
        is_pet_name(config.parts, false, words@),
{
    pet_name_inner(config, false)
}

/// A random name of more than one pet.
pub fn pet_name_plural(config: &NameConfig) -> (words: Vec<&'static str>)
    ensures
        is_pet_name(config.parts, true, words@),
{
    pet_name_inner(config, true)
}

fn pet_name_inner(config: &NameConfig, plural_noun: bool) -> (words: Vec<&'static str>)
    ensures
        is_pet_name(config.parts, plural_noun, words@),
{
    let mut words: Vec<&'static str> = Vec::new();
    let mut place: u8 = config.parts;
    while place > 0
        invariant
            place <= config.parts,
            words.len() == config.parts - place,
            forall|i: int|
                0 <= i < words.len() ==> was_drawn(pet_words(config.parts - 1 - i, plural_noun), #[trigger] words[i]),
        decreases place,
    {
        place = place - 1;
        let word = match place {
            0 => if plural_noun {
                random_choice(&NOUNS_PLURAL)
            } else {
                random_choice(&NOUNS)
            },
            1 => random_choice(&ADJECTIVES),
            _ => random_choice(&ADVERBS),
        };
        words.push(word);
    }
    words
}

/// A name ends with an animal, before which stands an adjective, and before that come adverbs.
pub proof fn pets_are_named_by_animals(parts: u8, plural_noun: bool, words: Seq<&'static str>, i: int)
    requires
        is_pet_name(parts, plural_noun, words),
        0 <= i < words.len(),
    ensures
        words.len() == parts,
        i == words.len() - 1 && plural_noun ==> lists(NOUNS_PLURAL@, words[i]),
        i == words.len() - 1 && !plural_noun ==> lists(NOUNS@, words[i]),
        i == words.len() - 2 ==> lists(ADJECTIVES@, words[i]),
        i < words.len() - 2 ==> lists(ADVERBS@, words[i]),
{
    drawn_words_are_listed(pet_words(parts - 1 - i, plural_noun), words[i]);
}

} // verus!
