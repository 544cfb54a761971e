use latin_tui::latin::{
    parse_declension, parse_gender, parse_pluralia, AdjectiveRecord, Case, CodeError, Declension, Gender, Latin,
    NounRecord, Number, VerbRecord,
};

fn s(x: &str) -> String {
    x.to_string()
}

fn noun_row(word: &str, nom_sg: &str, abl_sg: &str, loc_sg: &str, gender: Gender) -> NounRecord {
    NounRecord {
        word: s(word),
        nom_sg: s(nom_sg),
        gen_sg: s(""),
        dat_sg: s("-"),
        acc_sg: s("amicum"),
        abl_sg: s(abl_sg),
        voc_sg: s(""),
        loc_sg: s(loc_sg),
        nom_pl: s("amici"),
        gen_pl: s("amicorum"),
        dat_pl: s("amicis"),
        acc_pl: s("amicos"),
        abl_pl: s("amicis"),
        voc_pl: s("amici"),
        loc_pl: s(""),
        gender,
    }
}

fn adj_row(word: &str) -> AdjectiveRecord {
    AdjectiveRecord {
        word: s(word),
        comparative: s("magis bonus"),
        superlative: s("optimus"),
        adverb: s("bene"),
        nom_sg_masc: s("bonus"),
        gen_sg_masc: s("boni"),
        dat_sg_masc: s("bono"),
        acc_sg_masc: s("bonum"),
        abl_sg_masc: s("bono_abl"),
        nom_sg_fem: s("bona"),
        gen_sg_fem: s("bonae"),
        dat_sg_fem: s("bonae_dat"),
        acc_sg_fem: s("bonam"),
        abl_sg_fem: s("bona_abl"),
        nom_sg_neut: s("bonum_n"),
        gen_sg_neut: s("boni_n"),
        dat_sg_neut: s("bono_n"),
        acc_sg_neut: s("bonum_acc_n"),
        abl_sg_neut: s("bono_abl_n"),
        nom_pl_masc: s("boni_pl"),
        gen_pl_masc: s("bonorum"),
        dat_pl_masc: s("bonis"),
        acc_pl_masc: s("bonos"),
        abl_pl_masc: s("bonis_abl"),
        nom_pl_fem: s("bonae_pl"),
        gen_pl_fem: s("bonarum"),
        dat_pl_fem: s("bonis_f"),
        acc_pl_fem: s("bonas"),
        abl_pl_fem: s("bonis_abl_f"),
        nom_pl_neut: s("bona_pl_n"),
        gen_pl_neut: s("bonorum_n"),
        dat_pl_neut: s("bonis_n"),
        acc_pl_neut: s("bona_acc_pl_n"),
        abl_pl_neut: s("bonis_abl_n"),
    }
}

fn verb_row(word: &str) -> VerbRecord {
    VerbRecord {
        word: s(word),
        canonical: s("amo"),
        present_infinitive: s("amare"),
        perfect_active: s("amavi"),
        supine: s("amatum"),
        conjugation: Declension::First,
        irregular: false,
    }
}

fn dictionary() -> Latin {
    Latin::new(
        vec![
            noun_row("amicus", "amicus", "amico", "", Gender::Masculine),
            noun_row("roma", "Roma", "Roma_abl", "Romae", Gender::Feminine),
            noun_row("nihil", "", "", "-", Gender::Neuter),
        ],
        vec![adj_row("bonus")],
        vec![verb_row("amare")],
    )
}

#[test]
fn declension_codes() {
    assert_eq!(parse_declension("1"), Ok(Declension::First));
    assert_eq!(parse_declension("2"), Ok(Declension::Second));
    assert_eq!(parse_declension("3"), Ok(Declension::Third));
    assert_eq!(parse_declension("4"), Ok(Declension::Fourth));
    assert_eq!(parse_declension("12"), Ok(Declension::OneTwo));
    assert_eq!(parse_declension("i"), Ok(Declension::Irregular));
    assert_eq!(parse_declension("5"), Err(CodeError::UnknownDeclension));
    assert_eq!(parse_declension("21"), Err(CodeError::UnknownDeclension));
    assert_eq!(parse_declension(""), Err(CodeError::UnknownDeclension));
}

#[test]
fn gender_codes() {
    assert_eq!(parse_gender("m"), Ok(Gender::Masculine));
    assert_eq!(parse_gender("f"), Ok(Gender::Feminine));
    assert_eq!(parse_gender("n"), Ok(Gender::Neuter));
    assert_eq!(parse_gender("x"), Err(CodeError::UnknownGender));
    assert_eq!(parse_gender("mf"), Err(CodeError::UnknownGender));
}

#[test]
fn pluralia_codes() {
    assert_eq!(parse_pluralia("fa"), Ok(false));
    assert_eq!(parse_pluralia("tr"), Ok(true));
    assert_eq!(parse_pluralia("t"), Err(CodeError::UnknownPluralia));
    assert_eq!(parse_pluralia("true"), Err(CodeError::UnknownPluralia));
}

#[test]
fn error_messages() {
    assert_eq!(CodeError::UnknownDeclension.message(), "unknown declension");
    assert_eq!(CodeError::UnknownGender.message(), "unknown gender");
    assert_eq!(CodeError::UnknownPluralia.message(), "unknown pluralia");
}

#[test]
fn defaults() {
    assert_eq!(Gender::default(), Gender::Masculine);
    assert_eq!(Declension::default(), Declension::First);
}

#[test]
fn noun_reads_its_cell() {
    let l = dictionary();
    assert_eq!(l.noun("amicus", &Case::Nom, &Number::Singular), (s("amicus"), Gender::Masculine));
    assert_eq!(l.noun("amicus", &Case::Acc, &Number::Singular), (s("amicum"), Gender::Masculine));
    assert_eq!(l.noun("amicus", &Case::Gen, &Number::Plural), (s("amicorum"), Gender::Masculine));
    assert_eq!(l.noun("roma", &Case::Loc, &Number::Singular), (s("Romae"), Gender::Feminine));
}

#[test]
fn noun_blank_locative_uses_ablative() {
    let l = dictionary();
    assert_eq!(l.noun("amicus", &Case::Loc, &Number::Singular), (s("in amico"), Gender::Masculine));
    assert_eq!(l.noun("amicus", &Case::Loc, &Number::Plural), (s("in amico"), Gender::Masculine));
}

#[test]
fn noun_blank_form_marks_the_word() {
    let l = dictionary();
    assert_eq!(l.noun("amicus", &Case::Gen, &Number::Singular), (s("amicus''"), Gender::Masculine));
    assert_eq!(l.noun("amicus", &Case::Dat, &Number::Singular), (s("amicus''"), Gender::Masculine));
    assert_eq!(l.noun("nihil", &Case::Nom, &Number::Singular), (s("nihil''"), Gender::Neuter));
    // the locative cell is "-" and the ablative is blank: "in " is not blank
    assert_eq!(l.noun("nihil", &Case::Loc, &Number::Singular), (s("in "), Gender::Neuter));
}

#[test]
fn noun_unknown_word_uses_the_empty_row() {
    let l = dictionary();
    assert_eq!(l.noun("canis", &Case::Nom, &Number::Singular), (s("''"), Gender::Masculine));
    assert_eq!(l.noun("canis", &Case::Loc, &Number::Singular), (s("in "), Gender::Masculine));
}

#[test]
fn later_row_wins() {
    let l = Latin::new(
        vec![
            noun_row("amicus", "first", "a", "", Gender::Masculine),
            noun_row("amicus", "second", "b", "", Gender::Feminine),
        ],
        vec![],
        vec![],
    );
    assert_eq!(l.noun("amicus", &Case::Nom, &Number::Singular), (s("second"), Gender::Feminine));
}

#[test]
fn adjective_forms() {
    let l = dictionary();
    assert_eq!(l.adjective("bonus", &Case::Nom, &Number::Singular, &Gender::Masculine), "bonus");
    assert_eq!(l.adjective("bonus", &Case::Dat, &Number::Singular, &Gender::Feminine), "bonae_dat");
    assert_eq!(l.adjective("bonus", &Case::Acc, &Number::Plural, &Gender::Neuter), "bona_acc_pl_n");
    assert_eq!(l.adjective("bonus", &Case::Gen, &Number::Plural, &Gender::Feminine), "bonarum");
}

#[test]
fn adjective_locative_and_vocative_are_ablative() {
    let l = dictionary();
    for g in [Gender::Masculine, Gender::Feminine, Gender::Neuter] {
        for n in [Number::Singular, Number::Plural] {
            let abl = l.adjective("bonus", &Case::Abl, &n, &g);
            assert_eq!(l.adjective("bonus", &Case::Loc, &n, &g), abl);
            assert_eq!(l.adjective("bonus", &Case::Voc, &n, &g), abl);
        }
    }
}

#[test]
fn adjective_unknown_word_is_empty() {
    let l = dictionary();
    assert_eq!(l.adjective("malus", &Case::Nom, &Number::Singular, &Gender::Masculine), "");
}

#[test]
fn last_chars_shorter_word() {
    assert_eq!(Latin::last_n_chars("be", 3), "be");
}

#[test]
fn last_chars_suffix() {
    assert_eq!(Latin::last_n_chars("amicus", 2), "us");
    assert_eq!(Latin::last_n_chars("amicus", 6), "amicus");
    assert_eq!(Latin::last_n_chars("amicus", 1), "s");
    assert_eq!(Latin::last_n_chars("", 1), "");
    assert_eq!(Latin::last_n_chars("děti", 3), "ěti");
}
