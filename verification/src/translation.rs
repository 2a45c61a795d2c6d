//! A translation: what is asked of the engine for a request, and what is answered once the
//! engine has replied. Sending the question and reading the reply is left to the caller.

use vstd::prelude::*;

use crate::cleaning::{
    cleaned, is_part_of, is_trimmed, law_cleaning_keeps_a_part, lemma_part_of_part, nettoyer,
    truncated, tronquer,
};
use crate::language::{detect_language, language_of, meme_langue, same_language};
use crate::text::{is_blank, is_blank_text, lemma_trim, same_text, trim, trimmed};

verus! {

/// A translation asked for.
#[derive(Clone, Debug)]
pub struct TranslationRequest {
    pub text: String,
    /// The language of the text. Absent: guessed from the text.
    pub source_lang: Option<String>,
    /// The language to translate into, as an ISO code or in full.
    pub target_lang: String,
    /// The model, where it must differ from the configured one.
    pub model: Option<String>,
}

/// A translation done.
#[derive(Clone, Debug)]
pub struct TranslationResult {
    pub translated_text: String,
    pub detected_source_lang: String,
    /// True when the source language was guessed rather than declared. The guess goes by
    /// scripts and accents: a French sentence without accents passes for English. Saying so
    /// lets the caller give the language when the result surprises.
    pub source_was_guessed: bool,
    pub target_lang: String,
    pub model: String,
}

/// The model of an optional string: its characters, if any.
pub open spec fn opt_chars(o: Option<String>) -> Option<Seq<char>> {
    match o {
        Some(s) => Some(s@),
        None => None,
    }
}

/// A request, as sequences of characters.
pub struct RequestView {
    pub text: Seq<char>,
    pub source_lang: Option<Seq<char>>,
    pub target_lang: Seq<char>,
    pub model: Option<Seq<char>>,
}

impl View for TranslationRequest {
    type V = RequestView;

    open spec fn view(&self) -> RequestView {
        RequestView {
            text: self.text@,
            source_lang: opt_chars(self.source_lang),
            target_lang: self.target_lang@,
            model: opt_chars(self.model),
        }
    }
}

/// A translation done, as sequences of characters.
pub struct ResultView {
    pub translated_text: Seq<char>,
    pub detected_source_lang: Seq<char>,
    pub source_was_guessed: bool,
    pub target_lang: Seq<char>,
    pub model: Seq<char>,
}

impl View for TranslationResult {
    type V = ResultView;

    open spec fn view(&self) -> ResultView {
        ResultView {
            translated_text: self.translated_text@,
            detected_source_lang: self.detected_source_lang@,
            source_was_guessed: self.source_was_guessed,
            target_lang: self.target_lang@,
            model: self.model@,
        }
    }
}


/// The address that the engine listens on, by default.
pub fn endpoint_par_defaut() -> (r: String)
    ensures
        r@ == "http://127.0.0.1:8080"@,
{
    String::from_str("http://127.0.0.1:8080")
}

/// `s` without the slashes at its end (`str::trim_end_matches('/')`).
pub open spec fn without_trailing_slashes(s: Seq<char>) -> Seq<char>
    decreases s.len(),
{
    if s.len() > 0 && s.last() == '/' {
        without_trailing_slashes(s.drop_last())
    } else {
        s
    }
}

/// Where the engine answers chat completions, given its address.
pub open spec fn completions_url(endpoint: Seq<char>) -> Seq<char> {
    without_trailing_slashes(endpoint) + "/v1/chat/completions"@
}

/// The address of chat completions at the engine's address `endpoint`.
pub fn completions_url_of(endpoint: &str) -> (r: String)
    ensures
        r@ == completions_url(endpoint@),
{
    let n = endpoint.unicode_len();
    let mut j = n;
    assert(endpoint@.subrange(0, n as int) =~= endpoint@);
    while j > 0 && endpoint.get_char(j - 1) == '/'
        invariant
            n == endpoint@.len(),
            j <= n,
            without_trailing_slashes(endpoint@) == without_trailing_slashes(
                endpoint@.subrange(0, j as int),
            ),
        decreases j,
    {
        assert(endpoint@.subrange(0, j as int).drop_last() =~= endpoint@.subrange(0, j - 1));
        j = j - 1;
    }
    let mut r = String::from_str(endpoint.substring_char(0, j));
    r.append("/v1/chat/completions");
    r
}

/// The source language as declared by the request: trimmed, and neither blank nor `auto`.
pub open spec fn declared_source(source_lang: Option<Seq<char>>) -> Option<Seq<char>> {
    match source_lang {
        Some(l) => if !is_blank(l) && trim(l) != "auto"@ {
            Some(trim(l))
        } else {
            None
        },
        None => None,
    }
}

/// The model to use: the request's, trimmed, unless blank; else the configured one, trimmed.
pub open spec fn chosen_model(requested: Option<Seq<char>>, configured: Seq<char>) -> Seq<char> {
    match requested {
        Some(m) => if !is_blank(m) {
            trim(m)
        } else {
            trim(configured)
        },
        None => trim(configured),
    }
}

/// The instruction given to the model. It names the source language only where the request
/// declared it: a guessed language imposed on the model would make it translate a French
/// sentence without accents from English into English, and give it back untouched.
pub open spec fn instruction(declared: Option<Seq<char>>, target: Seq<char>) -> Seq<char> {
    "Tu traduis "@ + match declared {
        Some(l) => "depuis "@ + l + " "@,
        None => Seq::empty(),
    } + "vers "@ + target + ". Tu rends la traduction, et rien d'autre : pas de préambule, pas de note du traducteur, pas de variante entre parenthèses, pas de guillemets ajoutés. Tu gardes la mise en forme du texte d'origine — les retours à la ligne, les listes, la ponctuation. Tu ne traduis pas les noms propres, les noms de fichiers, les chemins, ni le code."@
}

/// What the engine is asked, and what the answer will carry besides the translation.
#[derive(Clone, Debug)]
pub struct EngineCall {
    /// Where the question goes.
    pub url: String,
    /// The `model` field of the question.
    pub model: String,
    /// The instruction, sent as the system message.
    pub instruction: String,
    /// The text to translate, sent as the user message.
    pub text: String,
    /// The source language, declared or guessed.
    pub source: String,
    pub source_was_guessed: bool,
    /// The target language, trimmed.
    pub target: String,
    /// The model, as the result names it.
    pub model_label: String,
}

/// A call to the engine, as sequences of characters.
pub struct CallView {
    pub url: Seq<char>,
    pub model: Seq<char>,
    pub instruction: Seq<char>,
    pub text: Seq<char>,
    pub source: Seq<char>,
    pub source_was_guessed: bool,
    pub target: Seq<char>,
    pub model_label: Seq<char>,
}

impl View for EngineCall {
    type V = CallView;

    open spec fn view(&self) -> CallView {
        CallView {
            url: self.url@,
            model: self.model@,
            instruction: self.instruction@,
            text: self.text@,
            source: self.source@,
            source_was_guessed: self.source_was_guessed,
            target: self.target@,
            model_label: self.model_label@,
        }
    }
}

/// What a request leads to before any engine is asked.
pub enum Plan {
    /// The request is refused, with this message.
    Refused(String),
    /// Nothing to translate: the result is already known.
    Unchanged(TranslationResult),
    /// The engine must be asked.
    Ask(EngineCall),
}

/// A plan, as sequences of characters.
pub enum PlanView {
    Refused(Seq<char>),
    Unchanged(ResultView),
    Ask(CallView),
}

impl View for Plan {
    type V = PlanView;

    open spec fn view(&self) -> PlanView {
        match self {
            Plan::Refused(m) => PlanView::Refused(m@),
            Plan::Unchanged(r) => PlanView::Unchanged(r@),
            Plan::Ask(c) => PlanView::Ask(c@),
        }
    }
}

/// What a request leads to, given the engine's address and the configured model.
/// A blank text, then a blank target language, is refused. A declared source language that
/// is the target gives the text back as it is; the shortcut is never taken on a guessed
/// language, since the guess takes French without accents for English.
pub open spec fn planned(req: RequestView, endpoint: Seq<char>, configured_model: Seq<char>) -> PlanView {
    if is_blank(req.text) {
        PlanView::Refused("Texte vide : rien à traduire."@)
    } else if is_blank(req.target_lang) {
        PlanView::Refused("La langue d'arrivée doit être précisée."@)
    } else {
        let target = trim(req.target_lang);
        let declared = declared_source(req.source_lang);
        if declared is Some && same_language(declared->0, target) {
            PlanView::Unchanged(
                ResultView {
                    translated_text: req.text,
                    detected_source_lang: declared->0,
                    source_was_guessed: false,
                    target_lang: target,
                    model: "aucun"@,
                },
            )
        } else {
            let m = chosen_model(req.model, configured_model);
            PlanView::Ask(
                CallView {
                    url: completions_url(endpoint),
                    model: if m.len() == 0 {
                        "local"@
                    } else {
                        m
                    },
                    instruction: instruction(declared, target),
                    text: req.text,
                    source: match declared {
                        Some(l) => l,
                        None => language_of(req.text),
                    },
                    source_was_guessed: declared is None,
                    target: target,
                    model_label: if m.len() == 0 {
                        "celui du serveur"@
                    } else {
                        m
                    },
                },
            )
        }
    }
}

/// `declared_source`, computed.
fn declared_source_of(source_lang: &Option<String>) -> (r: Option<String>)
    ensures
        opt_chars(r) == declared_source(opt_chars(*source_lang)),
{
    match source_lang {
        Some(l) => {
            let t = trimmed(l.as_str());
            if !t.as_str().is_empty() && !same_text(t.as_str(), "auto") {
                Some(t)
            } else {
                None
            }
        },
        None => None,
    }
}

/// `chosen_model`, computed.
fn chosen_model_of(requested: &Option<String>, configured: &str) -> (r: String)
    ensures
        r@ == chosen_model(opt_chars(*requested), configured@),
{
    match requested {
        Some(m) => {
            let t = trimmed(m.as_str());
            if !t.as_str().is_empty() {
                t
            } else {
                trimmed(configured)
            }
        },
        None => trimmed(configured),
    }
}

/// `instruction`, computed.
fn instruction_of(declared: &Option<String>, target: &str) -> (r: String)
    ensures
        r@ == instruction(opt_chars(*declared), target@),
{
    let mut r = String::from_str("Tu traduis ");
    match declared {
        Some(l) => {
            r.append("depuis ");
            r.append(l.as_str());
            r.append(" ");
        },
        None => {},
    }
    r.append("vers ");
    r.append(target);
    r.append(
        ". Tu rends la traduction, et rien d'autre : pas de préambule, pas de note du traducteur, pas de variante entre parenthèses, pas de guillemets ajoutés. Tu gardes la mise en forme du texte d'origine — les retours à la ligne, les listes, la ponctuation. Tu ne traduis pas les noms propres, les noms de fichiers, les chemins, ni le code.",
    );
    proof {
        match opt_chars(*declared) {
            Some(l) => {
                assert(r@ =~= instruction(opt_chars(*declared), target@));
            },
            None => {
                assert(r@ =~= instruction(opt_chars(*declared), target@));
            },
        }
    }
    r
}

/// What the request leads to (see `planned`); `endpoint` and `configured_model` come from
/// the configuration.
pub fn plan_translation(req: &TranslationRequest, endpoint: &str, configured_model: &str) -> (p:
    Plan)
    ensures
        p@ == planned(req@, endpoint@, configured_model@),
{
    if is_blank_text(req.text.as_str()) {
        return Plan::Refused(String::from_str("Texte vide : rien à traduire."));
    }
    let target = trimmed(req.target_lang.as_str());
    if target.as_str().is_empty() {
        return Plan::Refused(String::from_str("La langue d'arrivée doit être précisée."));
    }
    let declared = declared_source_of(&req.source_lang);
    let guessed = declared.is_none();
    if let Some(src) = &declared {
        if meme_langue(src.as_str(), target.as_str()) {
            return Plan::Unchanged(
                TranslationResult {
                    translated_text: req.text.clone(),
                    detected_source_lang: src.clone(),
                    source_was_guessed: false,
                    target_lang: target,
                    model: String::from_str("aucun"),
                },
            );
        }
    }
    let source = match &declared {
        Some(l) => l.clone(),
        None => String::from_str(detect_language(req.text.as_str())),
    };
    let instruction = instruction_of(&declared, target.as_str());
    let m = chosen_model_of(&req.model, configured_model);
    let empty = m.as_str().is_empty();
    let model = if empty {
        String::from_str("local")
    } else {
        m.clone()
    };
    let model_label = if empty {
        String::from_str("celui du serveur")
    } else {
        m
    };
    Plan::Ask(
        EngineCall {
            url: completions_url_of(endpoint),
            model,
            instruction,
            text: req.text.clone(),
            source,
            source_was_guessed: guessed,
            target,
            model_label,
        },
    )
}


/// How the engine answered a call.
#[derive(Clone, Debug)]
pub enum EngineReply {
    /// The engine could not be reached.
    Silent,
    /// The engine answered with a status that is not a success: the status as displayed
    /// (code and reason), and the body of the answer (empty where it could not be read).
    Rejected { status: String, detail: String },
    /// The answer could not be read as JSON: why.
    Unreadable { reason: String },
    /// The answer was read: the content of the message of its first choice, where it is a string.
    Answered { content: Option<String> },
}

/// A reply, as sequences of characters.
pub enum ReplyView {
    Silent,
    Rejected { status: Seq<char>, detail: Seq<char> },
    Unreadable { reason: Seq<char> },
    Answered { content: Option<Seq<char>> },
}

impl View for EngineReply {
    type V = ReplyView;

    open spec fn view(&self) -> ReplyView {
        match self {
            EngineReply::Silent => ReplyView::Silent,
            EngineReply::Rejected { status, detail } => ReplyView::Rejected {
                status: status@,
                detail: detail@,
            },
            EngineReply::Unreadable { reason } => ReplyView::Unreadable { reason: reason@ },
            EngineReply::Answered { content } => ReplyView::Answered { content: opt_chars(*content) },
        }
    }
}

/// The outcome of a translation, as sequences of characters.
pub open spec fn outcome_view(r: Result<TranslationResult, String>) -> Result<ResultView, Seq<char>> {
    match r {
        Ok(t) => Ok(t@),
        Err(e) => Err(e@),
    }
}

/// The outcome of a call, given the engine's reply. A reachable engine that rejects the call
/// is quoted, its answer cut to 200 characters; a reply without text is no translation; the
/// text of a reply is trimmed and cleaned of what the model adds (see `cleaned`).
pub open spec fn concluded(call: CallView, reply: ReplyView) -> Result<ResultView, Seq<char>> {
    match reply {
        ReplyView::Silent => Err(
            "Le moteur d'inférence ne répond pas. Démarrez-le, puis relancez la traduction."@,
        ),
        ReplyView::Rejected { status, detail } => Err(
            "Le moteur a refusé la demande ("@ + status + ")"@ + if is_blank(detail) {
                Seq::empty()
            } else {
                " : "@ + truncated(detail, 200)
            },
        ),
        ReplyView::Unreadable { reason } => Err("réponse illisible du moteur : "@ + reason),
        ReplyView::Answered { content } => match content {
            Some(c) => if !is_blank(c) {
                Ok(
                    ResultView {
                        translated_text: cleaned(trim(c)),
                        detected_source_lang: call.source,
                        source_was_guessed: call.source_was_guessed,
                        target_lang: call.target,
                        model: call.model_label,
                    },
                )
            } else {
                Err("Le moteur n'a rien traduit."@)
            },
            None => Err("Le moteur n'a rien traduit."@),
        },
    }
}

/// The outcome of `call`, given how the engine replied (see `concluded`).
pub fn finish_translation(call: &EngineCall, reply: &EngineReply) -> (r: Result<
    TranslationResult,
    String,
>)
    ensures
        outcome_view(r) == concluded(call@, reply@),
{
    match reply {
        EngineReply::Silent => Err(
            String::from_str(
                "Le moteur d'inférence ne répond pas. Démarrez-le, puis relancez la traduction.",
            ),
        ),
        EngineReply::Rejected { status, detail } => {
            let mut m = String::from_str("Le moteur a refusé la demande (");
            m.append(status.as_str());
            m.append(")");
            if !is_blank_text(detail.as_str()) {
                m.append(" : ");
                let cut = tronquer(detail.as_str(), 200);
                m.append(cut.as_str());
                assert(m@ =~= "Le moteur a refusé la demande ("@ + status@ + ")"@ + (" : "@
                    + truncated(detail@, 200)));
            } else {
                assert(m@ =~= "Le moteur a refusé la demande ("@ + status@ + ")"@ + Seq::empty());
            }
            Err(m)
        },
        EngineReply::Unreadable { reason } => {
            let mut m = String::from_str("réponse illisible du moteur : ");
            m.append(reason.as_str());
            Err(m)
        },
        EngineReply::Answered { content } => match content {
            Some(c) => {
                let raw = trimmed(c.as_str());
                if raw.as_str().is_empty() {
                    return Err(String::from_str("Le moteur n'a rien traduit."));
                }
                Ok(
                    TranslationResult {
                        translated_text: nettoyer(raw.as_str()),
                        detected_source_lang: call.source.clone(),
                        source_was_guessed: call.source_was_guessed,
                        target_lang: call.target.clone(),
                        model: call.model_label.clone(),
                    },
                )
            },
            None => Err(String::from_str("Le moteur n'a rien traduit.")),
        },
    }
}


/// A request without a declared source language never gets its text back untranslated:
/// the engine is asked, the guessed language is reported as such, and the instruction does
/// not name it.
pub proof fn law_guessed_source_asks_the_engine(req: RequestView, endpoint: Seq<char>, model: Seq<char>)
    requires
        !is_blank(req.text),
        !is_blank(req.target_lang),
        declared_source(req.source_lang) is None,
    ensures
        planned(req, endpoint, model) is Ask,
        planned(req, endpoint, model)->Ask_0.source_was_guessed,
        planned(req, endpoint, model)->Ask_0.source == language_of(req.text),
        planned(req, endpoint, model)->Ask_0.instruction == instruction(None, trim(req.target_lang)),
{
}

/// A request whose declared source language is the target gets its text back as it is,
/// without asking the engine.
pub proof fn law_same_language_gives_the_text_back(req: RequestView, endpoint: Seq<char>, model: Seq<char>)
    requires
        !is_blank(req.text),
        !is_blank(req.target_lang),
        declared_source(req.source_lang) is Some,
        same_language(declared_source(req.source_lang)->0, trim(req.target_lang)),
    ensures
        planned(req, endpoint, model) is Unchanged,
        planned(req, endpoint, model)->Unchanged_0.translated_text == req.text,
        !planned(req, endpoint, model)->Unchanged_0.source_was_guessed,
{
}

/// A blank text, or a blank target language, is refused before any engine is asked.
pub proof fn law_blank_requests_are_refused(req: RequestView, endpoint: Seq<char>, model: Seq<char>)
    requires
        is_blank(req.text) || is_blank(req.target_lang),
    ensures
        planned(req, endpoint, model) is Refused,
{
}

/// A reply is a translation exactly when it carries some text; the translation kept is then
/// a contiguous part of that text, with no white space at either end, and the result reports
/// the call's languages and model.
pub proof fn law_translation_is_part_of_the_reply(call: CallView, content: Option<Seq<char>>)
    ensures
        concluded(call, ReplyView::Answered { content }) is Ok <==> (content is Some && !is_blank(
            content->0,
        )),
        concluded(call, ReplyView::Answered { content }) is Ok ==> {
            let r = concluded(call, ReplyView::Answered { content })->Ok_0;
            &&& is_part_of(r.translated_text, content->0)
            &&& is_trimmed(r.translated_text)
            &&& r.detected_source_lang == call.source
            &&& r.source_was_guessed == call.source_was_guessed
            &&& r.target_lang == call.target
            &&& r.model == call.model_label
        },
{
    if content is Some {
        let c = content->0;
        law_cleaning_keeps_a_part(trim(c));
        lemma_trim(c);
        let t = trim(c);
        let x = cleaned(t);
        assert(is_part_of(t, c)) by {
            let (i, j) = choose|i: int, j: int| 0 <= i <= j <= c.len() && t == c.subrange(i, j);
            assert(0 <= i <= j <= c.len() && t == c.subrange(i, j));
        }
        lemma_part_of_part(x, t, c);
    }
}


/// Taking away the slashes at the end of an address keeps its longest prefix that does not
/// end with a slash: all that is taken away are slashes.
proof fn lemma_without_trailing_slashes(e: Seq<char>)
    ensures
        exists|k: int|
            0 <= k <= e.len() && (k == 0 || e[k - 1] != '/') && (forall|j: int|
                k <= j < e.len() ==> e[j] == '/') && without_trailing_slashes(e) == e.subrange(0, k),
    decreases e.len(),
{
    if e.len() > 0 && e.last() == '/' {
        lemma_without_trailing_slashes(e.drop_last());
        let d = e.drop_last();
        let k = choose|k: int|
            0 <= k <= d.len() && (k == 0 || d[k - 1] != '/') && (forall|j: int|
                k <= j < d.len() ==> d[j] == '/') && without_trailing_slashes(d) == d.subrange(0, k);
        assert(d.subrange(0, k) =~= e.subrange(0, k));
        assert(forall|j: int| k <= j < e.len() ==> e[j] == '/') by {
            assert forall|j: int| k <= j < e.len() implies e[j] == '/' by {
                if j < d.len() {
                    assert(d[j] == e[j]);
                }
            }
        }
    } else {
        assert(e.subrange(0, e.len() as int) =~= e);
    }
}

/// The engine is asked at its configured address, less only the slashes at its end,
/// followed by `/v1/chat/completions`; an address that does not end with a slash is kept whole.
pub proof fn law_call_goes_to_the_endpoint(req: RequestView, endpoint: Seq<char>, model: Seq<char>)
    requires
        planned(req, endpoint, model) is Ask,
    ensures
        exists|k: int|
            0 <= k <= endpoint.len() && (k == 0 || endpoint[k - 1] != '/') && (forall|j: int|
                k <= j < endpoint.len() ==> endpoint[j] == '/') && planned(req, endpoint, model)->Ask_0.url
                == endpoint.subrange(0, k) + "/v1/chat/completions"@,
        endpoint.len() == 0 || endpoint.last() != '/' ==> planned(req, endpoint, model)->Ask_0.url
            == endpoint + "/v1/chat/completions"@,
{
    lemma_without_trailing_slashes(endpoint);
    let k = choose|k: int|
        0 <= k <= endpoint.len() && (k == 0 || endpoint[k - 1] != '/') && (forall|j: int|
            k <= j < endpoint.len() ==> endpoint[j] == '/') && without_trailing_slashes(endpoint)
            == endpoint.subrange(0, k);
    if endpoint.len() == 0 || endpoint.last() != '/' {
        if k < endpoint.len() {
            assert(endpoint[endpoint.len() - 1] == '/');
        }
        assert(endpoint.subrange(0, k) =~= endpoint);
    }
}

/// A reply that carries text is a translation, and its text is the reply cleaned as
/// `nettoyer` cleans it, whatever the number of its lines; the result carries the call's
/// languages and model.
pub proof fn law_reply_is_cleaned(call: CallView, c: Seq<char>)
    requires
        !is_blank(c),
    ensures
        concluded(call, ReplyView::Answered { content: Some(c) }) == Ok::<ResultView, Seq<char>>(
            ResultView {
                translated_text: cleaned(c),
                detected_source_lang: call.source,
                source_was_guessed: call.source_was_guessed,
                target_lang: call.target,
                model: call.model_label,
            },
        ),
{
    lemma_trim(c);
}


/// A declared source language counts once trimmed; a blank one, or `auto`, is no declaration.
pub proof fn law_declared_source(l: Seq<char>)
    ensures
        is_blank(l) || trim(l) == seq!['a', 'u', 't', 'o'] ==> declared_source(Some(l)) is None,
        !is_blank(l) && trim(l) != seq!['a', 'u', 't', 'o'] ==> declared_source(Some(l)) == Some(
            trim(l),
        ),
        declared_source(None) is None,
{
    reveal_strlit("auto");
    assert("auto"@ =~= seq!['a', 'u', 't', 'o']);
}

/// The model asked for: the request's, trimmed, where it is not blank; else the configured
/// one, trimmed; and where both are blank, `local`, which the result names as the server's.
pub proof fn law_model_choice(req: RequestView, endpoint: Seq<char>, configured: Seq<char>)
    requires
        planned(req, endpoint, configured) is Ask,
    ensures
        req.model is Some && !is_blank(req.model->0) ==> {
            &&& planned(req, endpoint, configured)->Ask_0.model == trim(req.model->0)
            &&& planned(req, endpoint, configured)->Ask_0.model_label == trim(req.model->0)
        },
        (req.model is None || is_blank(req.model->0)) && !is_blank(configured) ==> {
            &&& planned(req, endpoint, configured)->Ask_0.model == trim(configured)
            &&& planned(req, endpoint, configured)->Ask_0.model_label == trim(configured)
        },
        (req.model is None || is_blank(req.model->0)) && is_blank(configured) ==> {
            &&& planned(req, endpoint, configured)->Ask_0.model == "local"@
            &&& planned(req, endpoint, configured)->Ask_0.model_label == "celui du serveur"@
        },
{
    if req.model is Some && !is_blank(req.model->0) {
        lemma_trim(req.model->0);
        assert(!is_blank(trim(req.model->0)));
    }
    lemma_trim(configured);
}

/// A rejection quotes the engine's status, then, where the body of its answer is not blank,
/// that body trimmed, cut after 200 characters with an ellipsis.
pub proof fn law_rejection_quotes_the_engine(call: CallView, status: Seq<char>, detail: Seq<char>)
    ensures
        is_blank(detail) ==> concluded(call, ReplyView::Rejected { status, detail }) == Err::<
            ResultView,
            Seq<char>,
        >("Le moteur a refusé la demande ("@ + status + ")"@),
        !is_blank(detail) && trim(detail).len() <= 200 ==> concluded(
            call,
            ReplyView::Rejected { status, detail },
        ) == Err::<ResultView, Seq<char>>(
            "Le moteur a refusé la demande ("@ + status + ")"@ + " : "@ + trim(detail),
        ),
        trim(detail).len() > 200 ==> concluded(call, ReplyView::Rejected { status, detail })
            == Err::<ResultView, Seq<char>>(
            "Le moteur a refusé la demande ("@ + status + ")"@ + " : "@ + trim(detail).subrange(
                0,
                200,
            ) + "…"@,
        ),
{
    let p = "Le moteur a refusé la demande ("@ + status + ")"@;
    assert(p + Seq::empty() =~= p);
    assert(p + (" : "@ + trim(detail)) =~= p + " : "@ + trim(detail));
    assert(p + (" : "@ + (trim(detail).subrange(0, 200) + "…"@)) =~= p + " : "@ + trim(
        detail,
    ).subrange(0, 200) + "…"@);
}

} // verus!
