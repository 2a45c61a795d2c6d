use traduire::translation::{
    finish_translation, plan_translation, EngineCall, EngineReply, Plan,
};
use traduire::{endpoint_par_defaut, TranslationRequest};

fn request(text: &str, source: Option<&str>, target: &str, model: Option<&str>) -> TranslationRequest {
    TranslationRequest {
        text: text.into(),
        source_lang: source.map(|s| s.to_string()),
        target_lang: target.into(),
        model: model.map(|s| s.to_string()),
    }
}

fn refusal(plan: Plan) -> String {
    match plan {
        Plan::Refused(m) => m,
        _ => panic!("the request should have been refused"),
    }
}

fn call(plan: Plan) -> EngineCall {
    match plan {
        Plan::Ask(c) => c,
        _ => panic!("the engine should have been asked"),
    }
}

#[test]
fn un_texte_vide_est_refuse_sans_appeler_le_moteur() {
    let err = refusal(plan_translation(&request("   ", None, "en", None), "http://127.0.0.1:8080", ""));
    assert!(err.contains("vide"), "{err}");
}

#[test]
fn une_langue_d_arrivee_absente_est_refusee() {
    let err = refusal(plan_translation(&request("bonjour", None, "  ", None), "http://127.0.0.1:8080", ""));
    assert!(err.contains("arrivée"), "{err}");
}

/// Traduire vers la langue déjà écrite ne veut rien dire ; le modèle
/// répondrait n'importe quoi plutôt que de le signaler.
#[test]
fn traduire_vers_sa_propre_langue_rend_le_texte_tel_quel() {
    let r = match plan_translation(
        &request("où est la clé", Some("fra"), "fr", None),
        "http://127.0.0.1:8080",
        "",
    ) {
        Plan::Unchanged(r) => r,
        _ => panic!("pas une erreur"),
    };
    assert_eq!(r.translated_text, "où est la clé");
    assert_eq!(r.detected_source_lang, "fra");
    assert!(!r.source_was_guessed);
}

#[test]
fn the_exact_messages_of_refusal() {
    assert_eq!(
        refusal(plan_translation(&request("", None, "en", None), "x", "")),
        "Texte vide : rien à traduire."
    );
    assert_eq!(
        refusal(plan_translation(&request("a", None, "", None), "x", "")),
        "La langue d'arrivée doit être précisée."
    );
}

#[test]
fn a_guessed_language_never_takes_the_shortcut() {
    // The text reads as English, the target is English: still the engine is asked.
    let c = call(plan_translation(&request("hello", None, "en", None), "http://h:1/", ""));
    assert!(c.source_was_guessed);
    assert_eq!(c.source, "en");
    assert_eq!(
        c.instruction,
        "Tu traduis vers en. Tu rends la traduction, et rien d'autre : pas de préambule, pas de note du traducteur, pas de variante entre parenthèses, pas de guillemets ajoutés. Tu gardes la mise en forme du texte d'origine — les retours à la ligne, les listes, la ponctuation. Tu ne traduis pas les noms propres, les noms de fichiers, les chemins, ni le code."
    );
    assert_eq!(c.url, "http://h:1/v1/chat/completions");
    assert_eq!(c.model, "local");
    assert_eq!(c.model_label, "celui du serveur");
    assert_eq!(c.text, "hello");
    assert_eq!(c.target, "en");
}

#[test]
fn auto_and_blank_sources_count_as_guessed() {
    let c = call(plan_translation(&request("été", Some(" auto "), "en", None), "e", ""));
    assert!(c.source_was_guessed);
    assert_eq!(c.source, "fr");
    // `ù` is among the marks of Italian, which come after French.
    let c = call(plan_translation(&request("où", Some("   "), "en", None), "e", ""));
    assert_eq!(c.source, "it");
    assert!(c.source_was_guessed);
}

#[test]
fn a_declared_language_enters_the_instruction() {
    let c = call(plan_translation(
        &request("Guten Tag", Some(" de "), " fr ", Some("  ")),
        "http://127.0.0.1:8080///",
        " qwen ",
    ));
    assert!(!c.source_was_guessed);
    assert_eq!(c.source, "de");
    assert_eq!(c.target, "fr");
    assert!(c.instruction.starts_with("Tu traduis depuis de vers fr. Tu rends"));
    assert_eq!(c.url, "http://127.0.0.1:8080/v1/chat/completions");
    assert_eq!(c.model, "qwen");
    assert_eq!(c.model_label, "qwen");
    let c = call(plan_translation(&request("x", None, "fr", Some(" mistral ")), "e", "qwen"));
    assert_eq!(c.model, "mistral");
}

fn a_call() -> EngineCall {
    call(plan_translation(&request("Bonjour", Some("fr"), "en", None), "http://e", "m"))
}

#[test]
fn the_reply_is_cleaned() {
    let r = finish_translation(
        &a_call(),
        &EngineReply::Answered { content: Some("  Voici la traduction :\n\"Hello\"  ".into()) },
    )
    .unwrap();
    assert_eq!(r.translated_text, "Hello");
    assert_eq!(r.detected_source_lang, "fr");
    assert!(!r.source_was_guessed);
    assert_eq!(r.target_lang, "en");
    assert_eq!(r.model, "m");
}

#[test]
fn replies_without_a_translation_are_errors() {
    let none = "Le moteur n'a rien traduit.";
    assert_eq!(finish_translation(&a_call(), &EngineReply::Answered { content: None }).unwrap_err(), none);
    assert_eq!(
        finish_translation(&a_call(), &EngineReply::Answered { content: Some(" \n ".into()) }).unwrap_err(),
        none
    );
    assert_eq!(
        finish_translation(&a_call(), &EngineReply::Silent).unwrap_err(),
        "Le moteur d'inférence ne répond pas. Démarrez-le, puis relancez la traduction."
    );
    assert_eq!(
        finish_translation(&a_call(), &EngineReply::Unreadable { reason: "EOF".into() }).unwrap_err(),
        "réponse illisible du moteur : EOF"
    );
}

#[test]
fn a_rejection_quotes_the_engine() {
    let e = finish_translation(
        &a_call(),
        &EngineReply::Rejected { status: "500 Internal Server Error".into(), detail: "  ".into() },
    )
    .unwrap_err();
    assert_eq!(e, "Le moteur a refusé la demande (500 Internal Server Error)");
    let long = "x".repeat(250);
    let e = finish_translation(
        &a_call(),
        &EngineReply::Rejected { status: "400 Bad Request".into(), detail: long },
    )
    .unwrap_err();
    assert_eq!(e, format!("Le moteur a refusé la demande (400 Bad Request) : {}…", "x".repeat(200)));
}

#[test]
fn the_default_endpoint() {
    assert_eq!(endpoint_par_defaut(), "http://127.0.0.1:8080");
}
