use traduire::{nettoyer, tronquer};

#[test]
fn le_preambule_est_retire_quand_il_tient_sur_sa_ligne() {
    assert_eq!(
        nettoyer("Voici la traduction :\nHello world"),
        "Hello world"
    );
    assert_eq!(nettoyer("Translation:\nHello"), "Hello");
    // Une traduction qui commence par deux-points ne doit pas être coupée.
    assert_eq!(
        nettoyer("Attention : ne pas ouvrir"),
        "Attention : ne pas ouvrir"
    );
}

#[test]
fn le_bloc_de_code_est_deballe() {
    assert_eq!(nettoyer("```\nHello\n```"), "Hello");
    assert_eq!(nettoyer("```text\nHello\n```"), "Hello");
}

#[test]
fn les_guillemets_ajoutes_partent_mais_pas_ceux_du_texte() {
    assert_eq!(nettoyer("\"Hello\""), "Hello");
    assert_eq!(nettoyer("« Bonjour »"), "Bonjour");
    // Des guillemets internes : ce sont ceux du texte, on n'y touche pas.
    assert_eq!(nettoyer("\"a\" et \"b\""), "\"a\" et \"b\"");
}

#[test]
fn a_preamble_alone_is_kept() {
    // Nothing follows the announcement: it is the whole reply, and stays.
    assert_eq!(nettoyer("Voici la traduction :\n   "), "Voici la traduction :");
}

#[test]
fn a_first_line_with_a_space_is_not_a_language_name() {
    assert_eq!(nettoyer("```mon texte\nHello\n```"), "mon texte\nHello");
}

#[test]
fn a_long_first_line_is_not_a_language_name() {
    assert_eq!(
        nettoyer("```abcdefghijklmnopqrstu\nHello\n```"),
        "abcdefghijklmnopqrstu\nHello"
    );
}

#[test]
fn an_unclosed_code_block_stays() {
    assert_eq!(nettoyer("```Hello"), "```Hello");
    assert_eq!(nettoyer("``````"), "``````");
}

#[test]
fn the_three_wrappings_go_in_turn() {
    assert_eq!(
        nettoyer("  ```\nHere is the translation:\n“Hello there”\n```  "),
        "Hello there"
    );
}

#[test]
fn single_quotes_and_typographic_quotes_go() {
    assert_eq!(nettoyer("'Salut'"), "Salut");
    assert_eq!(nettoyer("“ Hi ”"), "Hi");
    assert_eq!(nettoyer("«a»b»"), "a»b");
    assert_eq!(nettoyer("\""), "\"");
}

#[test]
fn nettoyer_only_trims_plain_text() {
    assert_eq!(nettoyer("\t Bonjour le monde \n"), "Bonjour le monde");
    assert_eq!(nettoyer(""), "");
}

#[test]
fn tronquer_cuts_after_n_characters() {
    assert_eq!(tronquer("  abc  ", 3), "abc");
    assert_eq!(tronquer("abcdef", 3), "abc…");
    assert_eq!(tronquer("éèàù", 2), "éè…");
    assert_eq!(tronquer("", 0), "");
}

#[test]
fn what_is_kept_is_a_trimmed_part_of_the_reply() {
    let replies = [
        "  « Bonjour » ",
        "```md\n  x y \n```",
        "Here's the translation:\n 'It is'\n",
        "\"a\" b",
        "``` \n```",
    ];
    for r in replies {
        let kept = nettoyer(r);
        assert!(r.contains(kept.as_str()), "{r:?} -> {kept:?}");
        assert_eq!(kept.trim(), kept);
    }
}
