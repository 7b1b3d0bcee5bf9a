//! Names in the Roman fashion.
use vstd::prelude::*;

use crate::names::word_list::{drawn_words_are_listed, lists, random_choice, was_drawn};

verus! {

/// Given names.
pub const PRAENOMEN: [[&'static str; 4]; 7] = [
    ["Appius", "Aulus", "Caeso", "Decimus"],
    ["Gaius", "Gnaeus", "Hostus", "Lucius"],
    ["Mamercus", "Manius", "Marcus", "Numerius"],
    ["Opiter", "Postumus", "Proculus", "Paullus"],
    ["Publius", "Quintus", "Servius", "Sextus"],
    ["Spurius", "Tiberius", "Titus", "Tullus"],
    ["Vibius", "Volesus", "Vopiscus", "Volero"],
];

/// Names of families.
pub const NOMEN: [[&'static str; 4]; 12] = [
    ["Acilius", "Aelius", "Aemilius", "Annius"],
    ["Antonius", "Asinius", "Atilius", "Aurelius"],
    ["Caecilius", "Calpurnius", "Cassius", "Claudius"],
    ["Cornelius", "Domitius", "Fabius", "Flavius"],
    ["Fulvius", "Furius", "Horatius", "Hortensius"],
    ["Julius", "Junius", "Licinius", "Livius"],
    ["Lucretius", "Lutatius", "Manlius", "Marius"],
    ["Minucius", "Mucius", "Octavius", "Papirius"],
    ["Petronius", "Pompeius", "Porcius", "Postumius"],
    ["Quinctius", "Sempronius", "Sergius", "Sulpicius"],
    ["Terentius", "Tullius", "Tuccius", "Ulpius"],
    ["Valerius", "Vipsanius", "Vitellius", "Volumnius"],
];

/// Names of branches of a family.
pub const COGNOMEN: [[&'static str; 4]; 15] = [
    ["Agricola", "Agrippa", "Albinus", "Ambustus"],
    ["Aquila", "Atratus", "Balbus", "Barbatus"],
    ["Bassus", "Bibulus", "Blaesus", "Brutus"],
    ["Caesar", "Calvus", "Camillus", "Caprarius"],
    ["Carbo", "Cato", "Catulus", "Celer"],
    ["Celsus", "Cicero", "Cotta", "Crassus"],
    ["Crispus", "Dentatus", "Dolabella", "Falco"],
    ["Fimbria", "Flaccus", "Florus", "Gallus"],
    ["Geta", "Glabrio", "Gracchus", "Lentulus"],
    ["Lepidus", "Longus", "Lucullus", "Macer"],
    ["Marcellus", "Maximus", "Merula", "Messalla"],
    ["Nerva", "Paullus", "Pictor", "Piso"],
    ["Regulus", "Rufus", "Rullus", "Scaevola"],
    ["Scaurus", "Scipio", "Severus", "Silanus"],
    ["Sulla", "Tacitus", "Varro", "Varus"],
];

/// Names of branches of a family, for all who bear one.
pub const COGNOMEN_PLURAL: [[&'static str; 4]; 15] = [
    ["Agricolae", "Agrippae", "Albini", "Ambusti"],
    ["Aquilae", "Atrati", "Balbi", "Barbati"],
    ["Bassi", "Bibuli", "Blaesi", "Bruti"],
    ["Caesares", "Calvi", "Camilli", "Caprarii"],
    ["Carbones", "Catones", "Catuli", "Celeri"],
    ["Celsi", "Cicerones", "Cottae", "Crassi"],
    ["Crispi", "Dentati", "Dolabellae", "Falcones"],
    ["Fimbriae", "Flacci", "Flori", "Galli"],
    ["Getae", "Glabriones", "Gracchi", "Lentuli"],
    ["Lepidi", "Longi", "Luculli", "Maceri"],
    ["Marcelli", "Maximi", "Merulae", "Messallae"],
    ["Nervae", "Paulli", "Pictores", "Pisones"],
    ["Reguli", "Rufi", "Rulli", "Scaevolae"],
    ["Scauri", "Scipiones", "Severi", "Silani"],
    ["Sullae", "Taciti", "Varrones", "Vari"],
];

/// What a name is made of.
#[derive(Copy, Clone, Debug)]
pub struct NameConfig {
    /// Whether the name starts with a given name.
    pub praenomen: bool,
}

/// Whether `words` make a Roman name: a family name and a branch name, behind a given name where
/// one is asked for, each drawn from its list.
pub open spec fn is_roman_name(praenomen: bool, plural_cognomen: bool, words: Seq<&'static str>) -> bool {
    let first: int = if praenomen { 1 } else { 0 };
    &&& words.len() == first + 2
    &&& praenomen ==> was_drawn(PRAENOMEN@, words[0])
    &&& was_drawn(NOMEN@, words[first])
    &&& if plural_cognomen {
        was_drawn(COGNOMEN_PLURAL@, words[first + 1])
    } else {
        was_drawn(COGNOMEN@, words[first + 1])
    }
}

/// A random name.
pub fn roman_name(config: &NameConfig) -> (words: Vec<&'static str>)
    ensures
        is_roman_name(config.praenomen, false, words@),
{
    roman_name_inner(config, false)
}

/// A random name of more than one Roman.
pub fn roman_name_plural(config: &NameConfig) -> (words: Vec<&'static str>)
    ensures
        is_roman_name(config.praenomen, true, words@),
{
    roman_name_inner(config, true)
}

fn roman_name_inner(config: &NameConfig, plural_cognomen: bool) -> (words: Vec<&'static str>)
    ensures
        is_roman_name(config.praenomen, plural_cognomen, words@),
{
    let nomen = random_choice(&NOMEN);
    let cognomen = if plural_cognomen {
        random_choice(&COGNOMEN_PLURAL)
    } else {
        random_choice(&COGNOMEN)
    };
    let mut words: Vec<&'static str> = Vec::new();
    if config.praenomen {
        words.push(random_choice(&PRAENOMEN));
    }
    words.push(nomen);
    words.push(cognomen);
    words
}

/// A name ends with the family and its branch, behind a given name where there is one.
pub proof fn romans_are_named_by_family(praenomen: bool, plural_cognomen: bool, words: Seq<&'static str>)
    requires
        is_roman_name(praenomen, plural_cognomen, words),
    ensures
        words.len() == if praenomen { 3int } else { 2int },
        praenomen ==> lists(PRAENOMEN@, words[0]),
        lists(NOMEN@, words[words.len() - 2]),
        plural_cognomen ==> lists(COGNOMEN_PLURAL@, words.last()),
        !plural_cognomen ==> lists(COGNOMEN@, words.last()),
{
    if praenomen {
        drawn_words_are_listed(PRAENOMEN@, words[0]);
    }
    drawn_words_are_listed(NOMEN@, words[words.len() - 2]);
    if plural_cognomen {
        drawn_words_are_listed(COGNOMEN_PLURAL@, words.last());
    } else {
        drawn_words_are_listed(COGNOMEN@, words.last());
    }
}

} // verus!
