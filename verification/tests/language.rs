use traduire::{detect_language, meme_langue};

#[test]
fn les_codes_de_langue_se_rejoignent_sur_deux_lettres() {
    assert!(meme_langue("fr", "fra"));
    assert!(meme_langue("EN", "eng"));
    assert!(!meme_langue("fr", "en"));
    assert!(
        !meme_langue("", "fr"),
        "une source vide ne vaut pas égalité"
    );
}

#[test]
fn detect_language_reads_the_script() {
    assert_eq!(detect_language("中文"), "zh");
    assert_eq!(detect_language("ひらがな"), "ja");
    assert_eq!(detect_language("한국어"), "ko");
    assert_eq!(detect_language("عربى"), "ar");
    assert_eq!(detect_language("русский"), "ru");
}

#[test]
fn detect_language_reads_the_accents() {
    assert_eq!(detect_language("São Paulo"), "pt");
    assert_eq!(detect_language("Grüße"), "de");
    assert_eq!(detect_language("déjà"), "fr");
    assert_eq!(detect_language("¿quien?"), "es");
    assert_eq!(detect_language("più però"), "it");
    assert_eq!(detect_language("Le tunnel est sortant"), "en");
    assert_eq!(detect_language(""), "en");
}

#[test]
fn detect_language_follows_its_order() {
    // A Han character decides before kana; German marks before French ones.
    assert_eq!(detect_language("ひらがな 漢"), "zh");
    assert_eq!(detect_language("é ü"), "de");
}

#[test]
fn meme_langue_trims_and_ignores_ascii_case() {
    assert!(meme_langue("  Fr ", "FRANÇAIS"));
    assert!(meme_langue("f", " F "));
    assert!(!meme_langue("f", "fr"));
    assert!(!meme_langue("   ", "   "));
    assert!(meme_langue("fr", "fr"));
}

#[test]
fn meme_langue_goes_both_ways() {
    let names = ["fr", "fra", " FR", "en", "", "  ", "e", "français"];
    for a in names {
        for b in names {
            assert_eq!(meme_langue(a, b), meme_langue(b, a), "{a:?} {b:?}");
        }
    }
}
