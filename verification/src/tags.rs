use vstd::prelude::*;

verus! {

use crate::text::str_eq;

/// The record types a plugin file can hold, one per four-character tag.
#[derive(Clone, Copy, PartialEq, Eq, Structural, Debug)]
pub enum ERecordType {
    TES3,
    ACTI,
    ALCH,
    APPA,
    ARMO,
    BODY,
    BOOK,
    BSGN,
    CELL,
    CLAS,
    CLOT,
    CONT,
    CREA,
    DIAL,
    DOOR,
    ENCH,
    FACT,
    GLOB,
    GMST,
    INFO,
    INGR,
    LAND,
    LEVC,
    LEVI,
    LIGH,
    LOCK,
    LTEX,
    MGEF,
    MISC,
    NPC_,
    PGRD,
    PROB,
    RACE,
    REGN,
    REPA,
    SCPT,
    SKIL,
    SNDG,
    SOUN,
    SPEL,
    SSCR,
    STAT,
    WEAP,
}

impl ERecordType {
    /// The four characters of this type's tag.
    pub open spec fn tag_chars(self) -> Seq<char> {
        match self {
            ERecordType::TES3 => "TES3"@,
            ERecordType::ACTI => "ACTI"@,
            ERecordType::ALCH => "ALCH"@,
            ERecordType::APPA => "APPA"@,
            ERecordType::ARMO => "ARMO"@,
            ERecordType::BODY => "BODY"@,
            ERecordType::BOOK => "BOOK"@,
            ERecordType::BSGN => "BSGN"@,
            ERecordType::CELL => "CELL"@,
            ERecordType::CLAS => "CLAS"@,
            ERecordType::CLOT => "CLOT"@,
            ERecordType::CONT => "CONT"@,
            ERecordType::CREA => "CREA"@,
            ERecordType::DIAL => "DIAL"@,
            ERecordType::DOOR => "DOOR"@,
            ERecordType::ENCH => "ENCH"@,
            ERecordType::FACT => "FACT"@,
            ERecordType::GLOB => "GLOB"@,
            ERecordType::GMST => "GMST"@,
            ERecordType::INFO => "INFO"@,
            ERecordType::INGR => "INGR"@,
            ERecordType::LAND => "LAND"@,
            ERecordType::LEVC => "LEVC"@,
            ERecordType::LEVI => "LEVI"@,
            ERecordType::LIGH => "LIGH"@,
            ERecordType::LOCK => "LOCK"@,
            ERecordType::LTEX => "LTEX"@,
            ERecordType::MGEF => "MGEF"@,
            ERecordType::MISC => "MISC"@,
            ERecordType::NPC_ => "NPC_"@,
            ERecordType::PGRD => "PGRD"@,
            ERecordType::PROB => "PROB"@,
            ERecordType::RACE => "RACE"@,
            ERecordType::REGN => "REGN"@,
            ERecordType::REPA => "REPA"@,
            ERecordType::SCPT => "SCPT"@,
            ERecordType::SKIL => "SKIL"@,
            ERecordType::SNDG => "SNDG"@,
            ERecordType::SOUN => "SOUN"@,
            ERecordType::SPEL => "SPEL"@,
            ERecordType::SSCR => "SSCR"@,
            ERecordType::STAT => "STAT"@,
            ERecordType::WEAP => "WEAP"@,
        }
    }

    /// The tag as text.
    pub fn tag_str(self) -> (r: &'static str)
        ensures
            r@ == self.tag_chars(),
    {
        match self {
            ERecordType::TES3 => "TES3",
            ERecordType::ACTI => "ACTI",
            ERecordType::ALCH => "ALCH",
            ERecordType::APPA => "APPA",
            ERecordType::ARMO => "ARMO",
            ERecordType::BODY => "BODY",
            ERecordType::BOOK => "BOOK",
            ERecordType::BSGN => "BSGN",
            ERecordType::CELL => "CELL",
            ERecordType::CLAS => "CLAS",
            ERecordType::CLOT => "CLOT",
            ERecordType::CONT => "CONT",
            ERecordType::CREA => "CREA",
            ERecordType::DIAL => "DIAL",
            ERecordType::DOOR => "DOOR",
            ERecordType::ENCH => "ENCH",
            ERecordType::FACT => "FACT",
            ERecordType::GLOB => "GLOB",
            ERecordType::GMST => "GMST",
            ERecordType::INFO => "INFO",
            ERecordType::INGR => "INGR",
            ERecordType::LAND => "LAND",
            ERecordType::LEVC => "LEVC",
            ERecordType::LEVI => "LEVI",
            ERecordType::LIGH => "LIGH",
            ERecordType::LOCK => "LOCK",
            ERecordType::LTEX => "LTEX",
            ERecordType::MGEF => "MGEF",
            ERecordType::MISC => "MISC",
            ERecordType::NPC_ => "NPC_",
            ERecordType::PGRD => "PGRD",
            ERecordType::PROB => "PROB",
            ERecordType::RACE => "RACE",
            ERecordType::REGN => "REGN",
            ERecordType::REPA => "REPA",
            ERecordType::SCPT => "SCPT",
            ERecordType::SKIL => "SKIL",
            ERecordType::SNDG => "SNDG",
            ERecordType::SOUN => "SOUN",
            ERecordType::SPEL => "SPEL",
            ERecordType::SSCR => "SSCR",
            ERecordType::STAT => "STAT",
            ERecordType::WEAP => "WEAP",
        }
    }

    /// The record type named by the tag, if any tag matches.
    pub fn from_tag(tag: &str) -> (r: Option<ERecordType>)
        ensures
            match r {
                Some(e) => e.tag_chars() == tag@,
                None => forall|e: ERecordType| #[trigger] e.tag_chars() != tag@,
            },
    {
        if str_eq(tag, "TES3") {
            Some(ERecordType::TES3)
        } else if str_eq(tag, "ACTI") {
            Some(ERecordType::ACTI)
        } else if str_eq(tag, "ALCH") {
            Some(ERecordType::ALCH)
        } else if str_eq(tag, "APPA") {
            Some(ERecordType::APPA)
        } else if str_eq(tag, "ARMO") {
            Some(ERecordType::ARMO)
        } else if str_eq(tag, "BODY") {
            Some(ERecordType::BODY)
        } else if str_eq(tag, "BOOK") {
            Some(ERecordType::BOOK)
        } else if str_eq(tag, "BSGN") {
            Some(ERecordType::BSGN)
        } else if str_eq(tag, "CELL") {
            Some(ERecordType::CELL)
        } else if str_eq(tag, "CLAS") {
            Some(ERecordType::CLAS)
        } else if str_eq(tag, "CLOT") {
            Some(ERecordType::CLOT)
        } else if str_eq(tag, "CONT") {
            Some(ERecordType::CONT)
        } else if str_eq(tag, "CREA") {
            Some(ERecordType::CREA)
        } else if str_eq(tag, "DIAL") {
            Some(ERecordType::DIAL)
        } else if str_eq(tag, "DOOR") {
            Some(ERecordType::DOOR)
        } else if str_eq(tag, "ENCH") {
            Some(ERecordType::ENCH)
        } else if str_eq(tag, "FACT") {
            Some(ERecordType::FACT)
        } else if str_eq(tag, "GLOB") {
            Some(ERecordType::GLOB)
        } else if str_eq(tag, "GMST") {
            Some(ERecordType::GMST)
        } else if str_eq(tag, "INFO") {
            Some(ERecordType::INFO)
        } else if str_eq(tag, "INGR") {
            Some(ERecordType::INGR)
        } else if str_eq(tag, "LAND") {
            Some(ERecordType::LAND)
        } else if str_eq(tag, "LEVC") {
            Some(ERecordType::LEVC)
        } else if str_eq(tag, "LEVI") {
            Some(ERecordType::LEVI)
        } else if str_eq(tag, "LIGH") {
            Some(ERecordType::LIGH)
        } else if str_eq(tag, "LOCK") {
            Some(ERecordType::LOCK)
        } else if str_eq(tag, "LTEX") {
            Some(ERecordType::LTEX)
        } else if str_eq(tag, "MGEF") {
            Some(ERecordType::MGEF)
        } else if str_eq(tag, "MISC") {
            Some(ERecordType::MISC)
        } else if str_eq(tag, "NPC_") {
            Some(ERecordType::NPC_)
        } else if str_eq(tag, "PGRD") {
            Some(ERecordType::PGRD)
        } else if str_eq(tag, "PROB") {
            Some(ERecordType::PROB)
        } else if str_eq(tag, "RACE") {
            Some(ERecordType::RACE)
        } else if str_eq(tag, "REGN") {
            Some(ERecordType::REGN)
        } else if str_eq(tag, "REPA") {
            Some(ERecordType::REPA)
        } else if str_eq(tag, "SCPT") {
            Some(ERecordType::SCPT)
        } else if str_eq(tag, "SKIL") {
            Some(ERecordType::SKIL)
        } else if str_eq(tag, "SNDG") {
            Some(ERecordType::SNDG)
        } else if str_eq(tag, "SOUN") {
            Some(ERecordType::SOUN)
        } else if str_eq(tag, "SPEL") {
            Some(ERecordType::SPEL)
        } else if str_eq(tag, "SSCR") {
            Some(ERecordType::SSCR)
        } else if str_eq(tag, "STAT") {
            Some(ERecordType::STAT)
        } else if str_eq(tag, "WEAP") {
            Some(ERecordType::WEAP)
        } else {
            None
        }
    }
}

/// Whether some record type carries this tag.
pub open spec fn known_tag(t: Seq<char>) -> bool {
    exists|e: ERecordType| #[trigger] e.tag_chars() == t
}

/// The tags of all record types, in the order the record browser lists them.
pub open spec fn all_tags() -> Seq<Seq<char>> {
    seq![
        "TES3"@,
        "GMST"@,
        "GLOB"@,
        "CLAS"@,
        "FACT"@,
        "RACE"@,
        "SOUN"@,
        "SNDG"@,
        "SKIL"@,
        "MGEF"@,
        "SCPT"@,
        "REGN"@,
        "BSGN"@,
        "SSCR"@,
        "LTEX"@,
        "SPEL"@,
        "STAT"@,
        "DOOR"@,
        "MISC"@,
        "WEAP"@,
        "CONT"@,
        "CREA"@,
        "BODY"@,
        "LIGH"@,
        "ENCH"@,
        "NPC_"@,
        "ARMO"@,
        "CLOT"@,
        "REPA"@,
        "ACTI"@,
        "APPA"@,
        "LOCK"@,
        "PROB"@,
        "INGR"@,
        "BOOK"@,
        "ALCH"@,
        "LEVI"@,
        "LEVC"@,
        "CELL"@,
        "LAND"@,
        "PGRD"@,
        "DIAL"@,
        "INFO"@,
    ]
}

/// All record tags as text, in the order the record browser lists them.
pub fn get_all_tags() -> (r: Vec<String>)
    ensures
        r.deep_view() == all_tags(),
{
    let mut v: Vec<String> = Vec::new();
    v.push("TES3".to_owned());
    v.push("GMST".to_owned());
    v.push("GLOB".to_owned());
    v.push("CLAS".to_owned());
    v.push("FACT".to_owned());
    v.push("RACE".to_owned());
    v.push("SOUN".to_owned());
    v.push("SNDG".to_owned());
    v.push("SKIL".to_owned());
    v.push("MGEF".to_owned());
    v.push("SCPT".to_owned());
    v.push("REGN".to_owned());
    v.push("BSGN".to_owned());
    v.push("SSCR".to_owned());
    v.push("LTEX".to_owned());
    v.push("SPEL".to_owned());
    v.push("STAT".to_owned());
    v.push("DOOR".to_owned());
    v.push("MISC".to_owned());
    v.push("WEAP".to_owned());
    v.push("CONT".to_owned());
    v.push("CREA".to_owned());
    v.push("BODY".to_owned());
    v.push("LIGH".to_owned());
    v.push("ENCH".to_owned());
    v.push("NPC_".to_owned());
    v.push("ARMO".to_owned());
    v.push("CLOT".to_owned());
    v.push("REPA".to_owned());
    v.push("ACTI".to_owned());
    v.push("APPA".to_owned());
    v.push("LOCK".to_owned());
    v.push("PROB".to_owned());
    v.push("INGR".to_owned());
    v.push("BOOK".to_owned());
    v.push("ALCH".to_owned());
    v.push("LEVI".to_owned());
    v.push("LEVC".to_owned());
    v.push("CELL".to_owned());
    v.push("LAND".to_owned());
    v.push("PGRD".to_owned());
    v.push("DIAL".to_owned());
    v.push("INFO".to_owned());
    proof {
        assert(v.deep_view() =~= all_tags());
    }
    v
}

} // verus!
