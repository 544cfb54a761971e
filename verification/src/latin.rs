//! Latin nouns and adjectives looked up in declension tables.
use vstd::prelude::*;
use vstd::string::*;
use crate::table::WordTable;

verus! {

/// The declension (or conjugation) class of a word.
#[derive(Debug, PartialEq, Eq, Clone, Copy, Structural)]
pub enum Declension {
    First,
    Second,
    Third,
    Fourth,
    Fifth,
    OneTwo,
    Irregular,
}

#[derive(Debug, PartialEq, Eq, Clone, Copy, Structural)]
pub enum Gender {
    Masculine,
    Feminine,
    Neuter,
}

#[derive(Debug, PartialEq, Eq, Clone, Copy, Structural)]
pub enum Case {
    Nom,
    Gen,
    Dat,
    Acc,
    Abl,
    Loc,
    Voc,
}

#[derive(Debug, PartialEq, Eq, Clone, Copy, Structural)]
pub enum Number {
    Singular,
    Plural,
}

#[derive(Debug, PartialEq, Eq, Clone, Copy, Structural)]
pub enum Person {
    First,
    Second,
    Third,
    Reflexive,
}

impl Default for Gender {
    fn default() -> (g: Gender)
        ensures
            g == Gender::Masculine,
    {
        Gender::Masculine
    }
}

impl Default for Declension {
    fn default() -> (d: Declension)
        ensures
            d == Declension::First,
    {
        Declension::First
    }
}

/// A noun form together with the gender of the noun.
pub type Noun = (String, Gender);

/// An adjective form.
pub type Adjective = String;

/// One row of the noun table: every case in both numbers.
pub struct NounRecord {
    pub word: String,
    pub nom_sg: String,
    pub gen_sg: String,
    pub dat_sg: String,
    pub acc_sg: String,
    pub abl_sg: String,
    pub voc_sg: String,
    pub loc_sg: String,
    pub nom_pl: String,
    pub gen_pl: String,
    pub dat_pl: String,
    pub acc_pl: String,
    pub abl_pl: String,
    pub voc_pl: String,
    pub loc_pl: String,
    pub gender: Gender,
}

/// One row of the verb table.
pub struct VerbRecord {
    pub word: String,
    pub canonical: String,
    pub present_infinitive: String,
    pub perfect_active: String,
    pub supine: String,
    pub conjugation: Declension,
    pub irregular: bool,
}

/// One row of the adjective table: five cases in both numbers and all genders.
pub struct AdjectiveRecord {
    pub word: String,
    pub comparative: String,
    pub superlative: String,
    pub adverb: String,
    pub nom_sg_masc: String,
    pub gen_sg_masc: String,
    pub dat_sg_masc: String,
    pub acc_sg_masc: String,
    pub abl_sg_masc: String,
    pub nom_sg_fem: String,
    pub gen_sg_fem: String,
    pub dat_sg_fem: String,
    pub acc_sg_fem: String,
    pub abl_sg_fem: String,
    pub nom_sg_neut: String,
    pub gen_sg_neut: String,
    pub dat_sg_neut: String,
    pub acc_sg_neut: String,
    pub abl_sg_neut: String,
    pub nom_pl_masc: String,
    pub gen_pl_masc: String,
    pub dat_pl_masc: String,
    pub acc_pl_masc: String,
    pub abl_pl_masc: String,
    pub nom_pl_fem: String,
    pub gen_pl_fem: String,
    pub dat_pl_fem: String,
    pub acc_pl_fem: String,
    pub abl_pl_fem: String,
    pub nom_pl_neut: String,
    pub gen_pl_neut: String,
    pub dat_pl_neut: String,
    pub acc_pl_neut: String,
    pub abl_pl_neut: String,
}

/// Why a code in a table column could not be read.
#[derive(Debug, PartialEq, Eq, Clone, Copy, Structural)]
pub enum CodeError {
    UnknownDeclension,
    UnknownGender,
    UnknownPluralia,
}

impl CodeError {
    /// The message that reports the error.
    pub fn message(&self) -> (m: String)
        ensures
            m@ == (match *self {
                CodeError::UnknownDeclension => "unknown declension"@,
                CodeError::UnknownGender => "unknown gender"@,
                CodeError::UnknownPluralia => "unknown pluralia"@,
            }),
    {
        match self {
            CodeError::UnknownDeclension => String::from_str("unknown declension"),
            CodeError::UnknownGender => String::from_str("unknown gender"),
            CodeError::UnknownPluralia => String::from_str("unknown pluralia"),
        }
    }
}

/// The declension that a table code names: "1", "2", "3", "4", "12" or "i".
pub open spec fn declension_of_code(code: Seq<char>) -> Result<Declension, CodeError> {
    if code == seq!['1'] {
        Ok(Declension::First)
    } else if code == seq!['2'] {
        Ok(Declension::Second)
    } else if code == seq!['3'] {
        Ok(Declension::Third)
    } else if code == seq!['4'] {
        Ok(Declension::Fourth)
    } else if code == seq!['1', '2'] {
        Ok(Declension::OneTwo)
    } else if code == seq!['i'] {
        Ok(Declension::Irregular)
    } else {
        Err(CodeError::UnknownDeclension)
    }
}

/// The gender that a table code names: "m", "f" or "n".
pub open spec fn gender_of_code(code: Seq<char>) -> Result<Gender, CodeError> {
    if code == seq!['m'] {
        Ok(Gender::Masculine)
    } else if code == seq!['f'] {
        Ok(Gender::Feminine)
    } else if code == seq!['n'] {
        Ok(Gender::Neuter)
    } else {
        Err(CodeError::UnknownGender)
    }
}

/// The flag that a table code names: "fa" is false, "tr" is true.
pub open spec fn pluralia_of_code(code: Seq<char>) -> Result<bool, CodeError> {
    if code == seq!['f', 'a'] {
        Ok(false)
    } else if code == seq!['t', 'r'] {
        Ok(true)
    } else {
        Err(CodeError::UnknownPluralia)
    }
}

/// Each known code names its own value, and no two codes name the same one:
/// "1", "2", "3", "4", "12" and "i" the first to fourth, the first-second
/// and the irregular declension; "m", "f" and "n" the three genders; "fa"
/// and "tr" false and true. Any other code is an error of its column.
pub proof fn lemma_codes_are_read_one_to_one(a: Seq<char>, b: Seq<char>)
    ensures
        declension_of_code(seq!['1']) == Ok::<Declension, CodeError>(Declension::First),
        declension_of_code(seq!['2']) == Ok::<Declension, CodeError>(Declension::Second),
        declension_of_code(seq!['3']) == Ok::<Declension, CodeError>(Declension::Third),
        declension_of_code(seq!['4']) == Ok::<Declension, CodeError>(Declension::Fourth),
        declension_of_code(seq!['1', '2']) == Ok::<Declension, CodeError>(Declension::OneTwo),
        declension_of_code(seq!['i']) == Ok::<Declension, CodeError>(Declension::Irregular),
        gender_of_code(seq!['m']) == Ok::<Gender, CodeError>(Gender::Masculine),
        gender_of_code(seq!['f']) == Ok::<Gender, CodeError>(Gender::Feminine),
        gender_of_code(seq!['n']) == Ok::<Gender, CodeError>(Gender::Neuter),
        pluralia_of_code(seq!['f', 'a']) == Ok::<bool, CodeError>(false),
        pluralia_of_code(seq!['t', 'r']) == Ok::<bool, CodeError>(true),
        declension_of_code(a) is Err ==> declension_of_code(a) == Err::<Declension, CodeError>(CodeError::UnknownDeclension),
        gender_of_code(a) is Err ==> gender_of_code(a) == Err::<Gender, CodeError>(CodeError::UnknownGender),
        pluralia_of_code(a) is Err ==> pluralia_of_code(a) == Err::<bool, CodeError>(CodeError::UnknownPluralia),
        declension_of_code(a) is Ok && declension_of_code(a) == declension_of_code(b) ==> a == b,
        gender_of_code(a) is Ok && gender_of_code(a) == gender_of_code(b) ==> a == b,
        pluralia_of_code(a) is Ok && pluralia_of_code(a) == pluralia_of_code(b) ==> a == b,
{
    assert(seq!['1'][0] != seq!['2'][0]);
    assert(seq!['1'][0] != seq!['3'][0]);
    assert(seq!['1'][0] != seq!['4'][0]);
    assert(seq!['2'][0] != seq!['3'][0]);
    assert(seq!['2'][0] != seq!['4'][0]);
    assert(seq!['3'][0] != seq!['4'][0]);
    assert(seq!['1'].len() != seq!['1', '2'].len());
    assert(seq!['m'][0] != seq!['f'][0]);
    assert(seq!['m'][0] != seq!['n'][0]);
    assert(seq!['f'][0] != seq!['n'][0]);
    assert(seq!['f', 'a'][0] != seq!['t', 'r'][0]);
}

/// Reads the declension column of a table.
pub fn parse_declension(code: &str) -> (r: Result<Declension, CodeError>)
    ensures
        r == declension_of_code(code@),
{
    let len = code.unicode_len();
    if len == 1 {
        let c = code.get_char(0);
        assert(code@ =~= seq![c]);
        if c == '1' {
            Ok(Declension::First)
        } else if c == '2' {
            Ok(Declension::Second)
        } else if c == '3' {
            Ok(Declension::Third)
        } else if c == '4' {
            Ok(Declension::Fourth)
        } else if c == 'i' {
            Ok(Declension::Irregular)
        } else {
            Err(CodeError::UnknownDeclension)
        }
    } else if len == 2 {
        let c0 = code.get_char(0);
        let c1 = code.get_char(1);
        assert(code@ =~= seq![c0, c1]);
        if c0 == '1' && c1 == '2' {
            Ok(Declension::OneTwo)
        } else {
            Err(CodeError::UnknownDeclension)
        }
    } else {
        Err(CodeError::UnknownDeclension)
    }
}

/// Reads the gender column of the noun table.
pub fn parse_gender(code: &str) -> (r: Result<Gender, CodeError>)
    ensures
        r == gender_of_code(code@),
{
    let len = code.unicode_len();
    if len == 1 {
        let c = code.get_char(0);
        assert(code@ =~= seq![c]);
        if c == 'm' {
            Ok(Gender::Masculine)
        } else if c == 'f' {
            Ok(Gender::Feminine)
        } else if c == 'n' {
            Ok(Gender::Neuter)
        } else {
            Err(CodeError::UnknownGender)
        }
    } else {
        Err(CodeError::UnknownGender)
    }
}

/// Reads the "irregular" column of the verb table.
pub fn parse_pluralia(code: &str) -> (r: Result<bool, CodeError>)
    ensures
        r == pluralia_of_code(code@),
{
    let len = code.unicode_len();
    if len == 2 {
        let c0 = code.get_char(0);
        let c1 = code.get_char(1);
        assert(code@ =~= seq![c0, c1]);
        if c0 == 'f' && c1 == 'a' {
            Ok(false)
        } else if c0 == 't' && c1 == 'r' {
            Ok(true)
        } else {
            Err(CodeError::UnknownPluralia)
        }
    } else {
        Err(CodeError::UnknownPluralia)
    }
}

/// A string that stands for a missing form: empty, or a single dash.
pub open spec fn is_blank(s: Seq<char>) -> bool {
    s.len() == 0 || s == seq!['-']
}

fn blank(s: &String) -> (b: bool)
    ensures
        b == is_blank(s@),
{
    let t = s.as_str();
    let len = t.unicode_len();
    if len == 0 {
        true
    } else if len == 1 {
        let c = t.get_char(0);
        assert(t@ =~= seq![c]);
        c == '-'
    } else {
        false
    }
}

/// The table cell of a noun record for a case and a number.
pub open spec fn noun_cell(r: NounRecord, case: Case, number: Number) -> Seq<char> {
    match number {
        Number::Singular => match case {
            Case::Nom => r.nom_sg@,
            Case::Gen => r.gen_sg@,
            Case::Dat => r.dat_sg@,
            Case::Acc => r.acc_sg@,
            Case::Abl => r.abl_sg@,
            Case::Voc => r.voc_sg@,
            Case::Loc => r.loc_sg@,
        },
        Number::Plural => match case {
            Case::Nom => r.nom_pl@,
            Case::Gen => r.gen_pl@,
            Case::Dat => r.dat_pl@,
            Case::Acc => r.acc_pl@,
            Case::Abl => r.abl_pl@,
            Case::Voc => r.voc_pl@,
            Case::Loc => r.loc_pl@,
        },
    }
}

/// The noun form given for a record, or for the empty record where the word is
/// not in the table. A blank locative becomes "in " and the ablative singular;
/// a form that is still blank becomes the word followed by two apostrophes.
pub open spec fn noun_form(entry: Option<NounRecord>, case: Case, number: Number) -> Seq<char> {
    let cell = match entry {
        Some(r) => noun_cell(r, case, number),
        None => Seq::empty(),
    };
    let abl = match entry {
        Some(r) => r.abl_sg@,
        None => Seq::empty(),
    };
    let word = match entry {
        Some(r) => r.word@,
        None => Seq::empty(),
    };
    let located = if case == Case::Loc && is_blank(cell) {
        seq!['i', 'n', ' '] + abl
    } else {
        cell
    };
    if is_blank(located) {
        word + seq!['\'', '\'']
    } else {
        located
    }
}

/// The gender given for a record; the empty record is masculine.
pub open spec fn noun_gender(entry: Option<NounRecord>) -> Gender {
    match entry {
        Some(r) => r.gender,
        None => Gender::Masculine,
    }
}

/// The table cell of an adjective record; the locative and the vocative are
/// read from the ablative column.
pub open spec fn adjective_cell(r: AdjectiveRecord, case: Case, number: Number, gender: Gender) -> Seq<char> {
    match gender {
        Gender::Masculine => match number {
            Number::Singular => match case {
                Case::Nom => r.nom_sg_masc@,
                Case::Gen => r.gen_sg_masc@,
                Case::Dat => r.dat_sg_masc@,
                Case::Acc => r.acc_sg_masc@,
                _ => r.abl_sg_masc@,
            },
            Number::Plural => match case {
                Case::Nom => r.nom_pl_masc@,
                Case::Gen => r.gen_pl_masc@,
                Case::Dat => r.dat_pl_masc@,
                Case::Acc => r.acc_pl_masc@,
                _ => r.abl_pl_masc@,
            },
        },
        Gender::Feminine => match number {
            Number::Singular => match case {
                Case::Nom => r.nom_sg_fem@,
                Case::Gen => r.gen_sg_fem@,
                Case::Dat => r.dat_sg_fem@,
                Case::Acc => r.acc_sg_fem@,
                _ => r.abl_sg_fem@,
            },
            Number::Plural => match case {
                Case::Nom => r.nom_pl_fem@,
                Case::Gen => r.gen_pl_fem@,
                Case::Dat => r.dat_pl_fem@,
                Case::Acc => r.acc_pl_fem@,
                _ => r.abl_pl_fem@,
            },
        },
        Gender::Neuter => match number {
            Number::Singular => match case {
                Case::Nom => r.nom_sg_neut@,
                Case::Gen => r.gen_sg_neut@,
                Case::Dat => r.dat_sg_neut@,
                Case::Acc => r.acc_sg_neut@,
                _ => r.abl_sg_neut@,
            },
            Number::Plural => match case {
                Case::Nom => r.nom_pl_neut@,
                Case::Gen => r.gen_pl_neut@,
                Case::Dat => r.dat_pl_neut@,
                Case::Acc => r.acc_pl_neut@,
                _ => r.abl_pl_neut@,
            },
        },
    }
}

/// The adjective form given for a record, or the empty form where the word is
/// not in the table.
pub open spec fn adjective_form(entry: Option<AdjectiveRecord>, case: Case, number: Number, gender: Gender) -> Seq<char> {
    match entry {
        Some(r) => adjective_cell(r, case, number, gender),
        None => Seq::empty(),
    }
}

/// The last `n` characters of a word, or the whole word where it is shorter.
pub open spec fn last_chars(word: Seq<char>, n: nat) -> Seq<char> {
    if word.len() >= n {
        word.subrange(word.len() - n, word.len() as int)
    } else {
        word
    }
}

/// A table row that is filed under the word it describes.
pub trait Keyed {
    spec fn key(&self) -> Seq<char>;

    /// The word the row is filed under.
    fn word(&self) -> (w: &String)
        ensures
            w@ == self.key(),
    ;
}

impl Keyed for NounRecord {
    open spec fn key(&self) -> Seq<char> {
        self.word@
    }

    fn word(&self) -> (w: &String) {
        &self.word
    }
}

impl Keyed for AdjectiveRecord {
    open spec fn key(&self) -> Seq<char> {
        self.word@
    }

    fn word(&self) -> (w: &String) {
        &self.word
    }
}

impl Keyed for VerbRecord {
    open spec fn key(&self) -> Seq<char> {
        self.word@
    }

    fn word(&self) -> (w: &String) {
        &self.word
    }
}

/// The map that loading a sequence of records in order produces: a later
/// record with the same word replaces an earlier one.
pub open spec fn records_view<R: Keyed>(records: Seq<R>) -> Map<Seq<char>, R>
    decreases records.len(),
{
    if records.len() == 0 {
        Map::empty()
    } else {
        records_view(records.drop_last()).insert(records.last().key(), records.last())
    }
}

/// The record that a map gives for a word, if any.
pub open spec fn entry<R>(m: Map<Seq<char>, R>, w: Seq<char>) -> Option<R> {
    if m.contains_key(w) {
        Some(m[w])
    } else {
        None
    }
}


/// Loading rows files each word under the last row that carries it; a word
/// that no row carries is not in the table.
pub proof fn lemma_records_view_last<R: Keyed>(records: Seq<R>, w: Seq<char>)
    ensures
        (exists|i: int| 0 <= i < records.len() && records[i].key() == w) <==> records_view(records).contains_key(w),
        forall|i: int|
            0 <= i < records.len() && records[i].key() == w && (forall|j: int| i < j < records.len() ==> records[j].key() != w)
            ==> records_view(records)[w] == records[i],
    decreases records.len(),
{
    if records.len() > 0 {
        let init = records.drop_last();
        lemma_records_view_last(init, w);
        if records.last().key() != w {
            assert forall|i: int| 0 <= i < records.len() && records[i].key() == w implies 0 <= i < init.len() && init[i].key() == w by {}
            assert forall|i: int| 0 <= i < init.len() && init[i].key() == w implies 0 <= i < records.len() && records[i].key() == w by {}
        } else {
            assert(records[records.len() - 1].key() == w);
        }
    }
}

/// A noun in the table whose cell for a case and a number is filled gives
/// that cell: the column named by the case and the number. A blank
/// locative gives "in " and the filled ablative singular, and any other
/// blank gives the word and two apostrophes.
pub proof fn lemma_noun_reads_its_column(r: NounRecord)
    ensures
        !is_blank(r.nom_sg@) ==> noun_form(Some(r), Case::Nom, Number::Singular) == r.nom_sg@,
        !is_blank(r.gen_sg@) ==> noun_form(Some(r), Case::Gen, Number::Singular) == r.gen_sg@,
        !is_blank(r.dat_sg@) ==> noun_form(Some(r), Case::Dat, Number::Singular) == r.dat_sg@,
        !is_blank(r.acc_sg@) ==> noun_form(Some(r), Case::Acc, Number::Singular) == r.acc_sg@,
        !is_blank(r.abl_sg@) ==> noun_form(Some(r), Case::Abl, Number::Singular) == r.abl_sg@,
        !is_blank(r.voc_sg@) ==> noun_form(Some(r), Case::Voc, Number::Singular) == r.voc_sg@,
        !is_blank(r.loc_sg@) ==> noun_form(Some(r), Case::Loc, Number::Singular) == r.loc_sg@,
        !is_blank(r.nom_pl@) ==> noun_form(Some(r), Case::Nom, Number::Plural) == r.nom_pl@,
        !is_blank(r.gen_pl@) ==> noun_form(Some(r), Case::Gen, Number::Plural) == r.gen_pl@,
        !is_blank(r.dat_pl@) ==> noun_form(Some(r), Case::Dat, Number::Plural) == r.dat_pl@,
        !is_blank(r.acc_pl@) ==> noun_form(Some(r), Case::Acc, Number::Plural) == r.acc_pl@,
        !is_blank(r.abl_pl@) ==> noun_form(Some(r), Case::Abl, Number::Plural) == r.abl_pl@,
        !is_blank(r.voc_pl@) ==> noun_form(Some(r), Case::Voc, Number::Plural) == r.voc_pl@,
        !is_blank(r.loc_pl@) ==> noun_form(Some(r), Case::Loc, Number::Plural) == r.loc_pl@,
        is_blank(r.loc_sg@) && !is_blank(r.abl_sg@) ==> noun_form(Some(r), Case::Loc, Number::Singular) == seq!['i', 'n', ' '] + r.abl_sg@,
        is_blank(r.loc_pl@) && !is_blank(r.abl_sg@) ==> noun_form(Some(r), Case::Loc, Number::Plural) == seq!['i', 'n', ' '] + r.abl_sg@,
        is_blank(r.acc_pl@) ==> noun_form(Some(r), Case::Acc, Number::Plural) == r.word@ + seq!['\'', '\''],
        is_blank(r.nom_sg@) ==> noun_form(Some(r), Case::Nom, Number::Singular) == r.word@ + seq!['\'', '\''],
        noun_gender(Some(r)) == r.gender,
{
    assert((seq!['i', 'n', ' '] + r.abl_sg@).len() >= 3);
}

/// An adjective in the table gives, for each case, number and gender, the
/// column named by them; the locative and the vocative read the ablative
/// column.
pub proof fn lemma_adjective_reads_its_column(r: AdjectiveRecord)
    ensures
        adjective_form(Some(r), Case::Nom, Number::Singular, Gender::Masculine) == r.nom_sg_masc@,
        adjective_form(Some(r), Case::Gen, Number::Singular, Gender::Masculine) == r.gen_sg_masc@,
        adjective_form(Some(r), Case::Dat, Number::Singular, Gender::Masculine) == r.dat_sg_masc@,
        adjective_form(Some(r), Case::Acc, Number::Singular, Gender::Masculine) == r.acc_sg_masc@,
        adjective_form(Some(r), Case::Abl, Number::Singular, Gender::Masculine) == r.abl_sg_masc@,
        adjective_form(Some(r), Case::Loc, Number::Singular, Gender::Masculine) == r.abl_sg_masc@,
        adjective_form(Some(r), Case::Voc, Number::Singular, Gender::Masculine) == r.abl_sg_masc@,
        adjective_form(Some(r), Case::Nom, Number::Plural, Gender::Masculine) == r.nom_pl_masc@,
        adjective_form(Some(r), Case::Gen, Number::Plural, Gender::Masculine) == r.gen_pl_masc@,
        adjective_form(Some(r), Case::Dat, Number::Plural, Gender::Masculine) == r.dat_pl_masc@,
        adjective_form(Some(r), Case::Acc, Number::Plural, Gender::Masculine) == r.acc_pl_masc@,
        adjective_form(Some(r), Case::Abl, Number::Plural, Gender::Masculine) == r.abl_pl_masc@,
        adjective_form(Some(r), Case::Loc, Number::Plural, Gender::Masculine) == r.abl_pl_masc@,
        adjective_form(Some(r), Case::Voc, Number::Plural, Gender::Masculine) == r.abl_pl_masc@,
        adjective_form(Some(r), Case::Nom, Number::Singular, Gender::Feminine) == r.nom_sg_fem@,
        adjective_form(Some(r), Case::Gen, Number::Singular, Gender::Feminine) == r.gen_sg_fem@,
        adjective_form(Some(r), Case::Dat, Number::Singular, Gender::Feminine) == r.dat_sg_fem@,
        adjective_form(Some(r), Case::Acc, Number::Singular, Gender::Feminine) == r.acc_sg_fem@,
        adjective_form(Some(r), Case::Abl, Number::Singular, Gender::Feminine) == r.abl_sg_fem@,
        adjective_form(Some(r), Case::Loc, Number::Singular, Gender::Feminine) == r.abl_sg_fem@,
        adjective_form(Some(r), Case::Voc, Number::Singular, Gender::Feminine) == r.abl_sg_fem@,
        adjective_form(Some(r), Case::Nom, Number::Plural, Gender::Feminine) == r.nom_pl_fem@,
        adjective_form(Some(r), Case::Gen, Number::Plural, Gender::Feminine) == r.gen_pl_fem@,
        adjective_form(Some(r), Case::Dat, Number::Plural, Gender::Feminine) == r.dat_pl_fem@,
        adjective_form(Some(r), Case::Acc, Number::Plural, Gender::Feminine) == r.acc_pl_fem@,
        adjective_form(Some(r), Case::Abl, Number::Plural, Gender::Feminine) == r.abl_pl_fem@,
        adjective_form(Some(r), Case::Loc, Number::Plural, Gender::Feminine) == r.abl_pl_fem@,
        adjective_form(Some(r), Case::Voc, Number::Plural, Gender::Feminine) == r.abl_pl_fem@,
        adjective_form(Some(r), Case::Nom, Number::Singular, Gender::Neuter) == r.nom_sg_neut@,
        adjective_form(Some(r), Case::Gen, Number::Singular, Gender::Neuter) == r.gen_sg_neut@,
        adjective_form(Some(r), Case::Dat, Number::Singular, Gender::Neuter) == r.dat_sg_neut@,
        adjective_form(Some(r), Case::Acc, Number::Singular, Gender::Neuter) == r.acc_sg_neut@,
        adjective_form(Some(r), Case::Abl, Number::Singular, Gender::Neuter) == r.abl_sg_neut@,
        adjective_form(Some(r), Case::Loc, Number::Singular, Gender::Neuter) == r.abl_sg_neut@,
        adjective_form(Some(r), Case::Voc, Number::Singular, Gender::Neuter) == r.abl_sg_neut@,
        adjective_form(Some(r), Case::Nom, Number::Plural, Gender::Neuter) == r.nom_pl_neut@,
        adjective_form(Some(r), Case::Gen, Number::Plural, Gender::Neuter) == r.gen_pl_neut@,
        adjective_form(Some(r), Case::Dat, Number::Plural, Gender::Neuter) == r.dat_pl_neut@,
        adjective_form(Some(r), Case::Acc, Number::Plural, Gender::Neuter) == r.acc_pl_neut@,
        adjective_form(Some(r), Case::Abl, Number::Plural, Gender::Neuter) == r.abl_pl_neut@,
        adjective_form(Some(r), Case::Loc, Number::Plural, Gender::Neuter) == r.abl_pl_neut@,
        adjective_form(Some(r), Case::Voc, Number::Plural, Gender::Neuter) == r.abl_pl_neut@,
{
}

/// The locative and the vocative of an adjective are its ablative.
pub proof fn lemma_adjective_oblique_cases(entry: Option<AdjectiveRecord>, number: Number, gender: Gender)
    ensures
        adjective_form(entry, Case::Loc, number, gender) == adjective_form(entry, Case::Abl, number, gender),
        adjective_form(entry, Case::Voc, number, gender) == adjective_form(entry, Case::Abl, number, gender),
{
}

/// A noun form is never blank: a blank locative is replaced by "in " and the
/// ablative, and any form still blank by the word and two apostrophes.
pub proof fn lemma_noun_form_never_blank(entry: Option<NounRecord>, case: Case, number: Number)
    ensures
        !is_blank(noun_form(entry, case, number)),
        !is_blank(match entry { Some(r) => noun_cell(r, case, number), None => Seq::empty() })
            ==> noun_form(entry, case, number) == (match entry { Some(r) => noun_cell(r, case, number), None => Seq::empty() }),
{
    let w = match entry { Some(r) => r.word@, None => Seq::<char>::empty() };
    assert((w + seq!['\'', '\'']).len() >= 2);
}

/// The last `n` characters are a suffix of the word, `n` long, or the whole
/// word where it is shorter.
pub proof fn lemma_last_chars_suffix(word: Seq<char>, n: nat)
    ensures
        last_chars(word, n).len() == (if word.len() >= n { n } else { word.len() }),
        last_chars(word, n) == word.subrange(word.len() - last_chars(word, n).len(), word.len() as int),
{
    if word.len() < n {
        assert(word.subrange(0, word.len() as int) =~= word);
    }
}

/// The noun, adjective and verb tables.
pub struct Latin {
    noun_map: WordTable<NounRecord>,
    adj_map: WordTable<AdjectiveRecord>,
    verb_map: WordTable<VerbRecord>,
}

fn table_of<R: Keyed>(records: Vec<R>) -> (t: WordTable<R>)
    ensures
        t@ == records_view(records@),
{
    let ghost rows = records@;
    let ghost mut seen: Seq<R> = Seq::empty();
    let mut t = WordTable::new();
    for rec in it: records.into_iter()
        invariant
            it.seq() == rows,
            seen == rows.take(it.index()),
            t@ == records_view(seen),
    {
        proof {
            assert(rows.take(it.index() + 1).drop_last() =~= rows.take(it.index()));
            seen = rows.take(it.index() + 1);
        }
        let w = rec.word().clone();
        t.insert(w, rec);
    }
    proof {
        assert(seen =~= rows);
    }
    t
}

impl Latin {
    /// The nouns, by word.
    pub closed spec fn nouns(&self) -> Map<Seq<char>, NounRecord> {
        self.noun_map@
    }

    /// The adjectives, by word.
    pub closed spec fn adjectives(&self) -> Map<Seq<char>, AdjectiveRecord> {
        self.adj_map@
    }

    /// The verbs, by word.
    pub closed spec fn verbs(&self) -> Map<Seq<char>, VerbRecord> {
        self.verb_map@
    }

    /// Builds the tables from the rows of the noun, adjective and verb
    /// files, in file order.
    pub fn new(nouns: Vec<NounRecord>, adjectives: Vec<AdjectiveRecord>, verbs: Vec<VerbRecord>) -> (l: Latin)
        ensures
            l.nouns() == records_view(nouns@),
            l.adjectives() == records_view(adjectives@),
            l.verbs() == records_view(verbs@),
    {
        Latin {
            noun_map: table_of(nouns),
            adj_map: table_of(adjectives),
            verb_map: table_of(verbs),
        }
    }

    /// The form of a noun in a case and a number, with its gender.
    pub fn noun(&self, word: &str, case: &Case, number: &Number) -> (n: Noun)
        ensures
            n.0@ == noun_form(entry(self.nouns(), word@), *case, *number),
            n.1 == noun_gender(entry(self.nouns(), word@)),
            !is_blank(n.0@),
    {
        let found = self.noun_map.get(word);
        let ghost e = entry(self.nouns(), word@);
        let (cell, gender, abl, w) = match found {
            Some(r) => {
                let cell = match number {
                    Number::Singular => match case {
                        Case::Nom => r.nom_sg.clone(),
                        Case::Gen => r.gen_sg.clone(),
                        Case::Dat => r.dat_sg.clone(),
                        Case::Acc => r.acc_sg.clone(),
                        Case::Abl => r.abl_sg.clone(),
                        Case::Voc => r.voc_sg.clone(),
                        Case::Loc => r.loc_sg.clone(),
                    },
                    Number::Plural => match case {
                        Case::Nom => r.nom_pl.clone(),
                        Case::Gen => r.gen_pl.clone(),
                        Case::Dat => r.dat_pl.clone(),
                        Case::Acc => r.acc_pl.clone(),
                        Case::Abl => r.abl_pl.clone(),
                        Case::Voc => r.voc_pl.clone(),
                        Case::Loc => r.loc_pl.clone(),
                    },
                };
                (cell, r.gender, r.abl_sg.clone(), r.word.clone())
            },
            None => (String::new(), Gender::default(), String::new(), String::new()),
        };
        assert(cell@ == match e { Some(r) => noun_cell(r, *case, *number), None => Seq::<char>::empty() });
        assert(abl@ == match e { Some(r) => r.abl_sg@, None => Seq::<char>::empty() });
        assert(w@ == match e { Some(r) => r.word@, None => Seq::<char>::empty() });
        let mut form = cell;
        if matches!(case, Case::Loc) && blank(&form) {
            let mut located = String::from_str("in ");
            proof {
                reveal_strlit("in ");
                assert("in "@ =~= seq!['i', 'n', ' ']);
            }
            located.append(abl.as_str());
            form = located;
        }
        if blank(&form) {
            let mut marked = w;
            proof {
                reveal_strlit("''");
                assert("''"@ =~= seq!['\'', '\'']);
            }
            marked.append("''");
            form = marked;
        }
        (form, gender)
    }

    /// The form of an adjective in a case, a number and a gender.
    pub fn adjective(&self, word: &str, case: &Case, number: &Number, gender: &Gender) -> (a: Adjective)
        ensures
            a@ == adjective_form(entry(self.adjectives(), word@), *case, *number, *gender),
    {
        match self.adj_map.get(word) {
            None => String::new(),
            Some(record) => match gender {
                Gender::Masculine => match number {
                    Number::Singular => match case {
                        Case::Nom => record.nom_sg_masc.clone(),
                        Case::Gen => record.gen_sg_masc.clone(),
                        Case::Dat => record.dat_sg_masc.clone(),
                        Case::Acc => record.acc_sg_masc.clone(),
                        Case::Abl => record.abl_sg_masc.clone(),
                        _ => record.abl_sg_masc.clone(),
                    },
                    Number::Plural => match case {
                        Case::Nom => record.nom_pl_masc.clone(),
                        Case::Gen => record.gen_pl_masc.clone(),
                        Case::Dat => record.dat_pl_masc.clone(),
                        Case::Acc => record.acc_pl_masc.clone(),
                        Case::Abl => record.abl_pl_masc.clone(),
                        _ => record.abl_pl_masc.clone(),
                    },
                },
                Gender::Feminine => match number {
                    Number::Singular => match case {
                        Case::Nom => record.nom_sg_fem.clone(),
                        Case::Gen => record.gen_sg_fem.clone(),
                        Case::Dat => record.dat_sg_fem.clone(),
                        Case::Acc => record.acc_sg_fem.clone(),
                        Case::Abl => record.abl_sg_fem.clone(),
                        _ => record.abl_sg_fem.clone(),
                    },
                    Number::Plural => match case {
                        Case::Nom => record.nom_pl_fem.clone(),
                        Case::Gen => record.gen_pl_fem.clone(),
                        Case::Dat => record.dat_pl_fem.clone(),
                        Case::Acc => record.acc_pl_fem.clone(),
                        Case::Abl => record.abl_pl_fem.clone(),
                        _ => record.abl_pl_fem.clone(),
                    },
                },
                Gender::Neuter => match number {
                    Number::Singular => match case {
                        Case::Nom => record.nom_sg_neut.clone(),
                        Case::Gen => record.gen_sg_neut.clone(),
                        Case::Dat => record.dat_sg_neut.clone(),
                        Case::Acc => record.acc_sg_neut.clone(),
                        Case::Abl => record.abl_sg_neut.clone(),
                        _ => record.abl_sg_neut.clone(),
                    },
                    Number::Plural => match case {
                        Case::Nom => record.nom_pl_neut.clone(),
                        Case::Gen => record.gen_pl_neut.clone(),
                        Case::Dat => record.dat_pl_neut.clone(),
                        Case::Acc => record.acc_pl_neut.clone(),
                        Case::Abl => record.abl_pl_neut.clone(),
                        _ => record.abl_pl_neut.clone(),
                    },
                },
            },
        }
    }

    /// The last `n` characters of `word`, or all of it where it is shorter.
    pub fn last_n_chars(word: &str, n: usize) -> (s: String)
        requires
            n >= 1,
        ensures
            s@ == last_chars(word@, n as nat),
    {
        let len = word.unicode_len();
        let start = if len >= n { len - n } else { 0 };
        String::from_str(word.substring_char(start, len))
    }
}

} // verus!
