//! The rule engine: user-defined matchers applied to a document's body,
//! and the inferred metadata (document date, language) that follows.
//!
//! Matching is regular-expression based and runs through the regex
//! crate; date candidates, date parsing and language detection run
//! through their own crates. Each outside call stands behind a trusted
//! wrapper whose result is named, and the engine's own logic is proved
//! against those names.

use vstd::prelude::*;
use crate::{DocId, TagId};
use crate::document::{DocumentData, view_opt_string};
use crate::text::spec_tokens;

verus! {

/// An error while tagging.
#[derive(Debug, Clone)]
pub enum TaggingError {
    /// A matcher's pattern does not compile; the payload is the pattern.
    RegexError(String),
    /// The tag configuration could not be loaded or written.
    ConfigError(String),
    /// The document has no body to match against.
    EmptyBody(DocId),
}

//////////////////////////////////////////////////////////////////////////
// Trusted wrappers around the outside crates
//////////////////////////////////////////////////////////////////////////

/// Whether the regex crate compiles this pattern under this case flag.
/// It depends on the pattern and flag alone.
pub uninterp spec fn regex_compiles(pattern: Seq<char>, case_insensitive: bool) -> bool;

/// Whether the compiled pattern matches somewhere in the text. It
/// depends on the pattern, flag and text alone.
pub uninterp spec fn regex_is_match(pattern: Seq<char>, case_insensitive: bool, text: Seq<
    char,
>) -> bool;

/// Relies on `regex::RegexBuilder::build` and `regex::Regex::is_match`:
/// whether a pattern compiles, and whether it matches a text, are
/// functions of the pattern, the case flag and the text alone.
#[verifier::external_body]
fn regex_match(pattern: &str, case_insensitive: bool, text: &str) -> (r: Option<bool>)
    ensures
        (r is Some) <==> regex_compiles(pattern@, case_insensitive),
        r matches Some(b) ==> b == regex_is_match(pattern@, case_insensitive, text@),
{
    match regex::RegexBuilder::new(pattern).case_insensitive(case_insensitive).build() {
        Ok(re) => Some(re.is_match(text)),
        Err(_) => None,
    }
}

/// The date-shaped substrings of a text, in text order, as the
/// commonregex crate finds them. They depend on the text alone.
pub uninterp spec fn date_candidates_of(text: Seq<char>) -> Seq<Seq<char>>;

/// Relies on `commonregex::dates`: the date-shaped substrings found
/// depend on the text alone, and come in text order.
#[verifier::external_body]
fn extract_dates(text: &str) -> (r: Vec<String>)
    ensures
        r.deep_view() == date_candidates_of(text@),
{
    commonregex::dates(text).into_iter().map(|d: &str| d.to_string()).collect()
}

/// The UTC timestamp a best-effort parse of a date-shaped string gives,
/// if any. It depends on the string alone.
pub uninterp spec fn parsed_date_of(s: Seq<char>) -> Option<i64>;

/// Relies on `diligent_date_parser::parse_date`: the parse depends on
/// the string alone; the timestamp read off the parsed instant is its
/// UTC epoch-second count.
#[verifier::external_body]
fn parse_date_utc(s: &str) -> (r: Option<i64>)
    ensures
        r == parsed_date_of(s@),
{
    diligent_date_parser::parse_date(s).map(|d| d.timestamp())
}

/// The ISO 639 code of the language the trigram detector reports for a
/// text, if it reports one. It depends on the text alone.
pub uninterp spec fn detected_lang_of(text: Seq<char>) -> Option<Seq<char>>;

/// Relies on `whatlang::detect` and `whatlang::Lang::code`: the
/// detection depends on the text alone; its code is the ISO 639 code.
#[verifier::external_body]
fn detect_language(text: &str) -> (r: Option<String>)
    ensures
        view_opt_string(r) == detected_lang_of(text@),
{
    whatlang::detect(text).map(|info| info.lang().code().to_string())
}

//////////////////////////////////////////////////////////////////////////
// Matcher configuration
//////////////////////////////////////////////////////////////////////////

/// A matcher over a document's body.
#[derive(Debug, Clone)]
pub enum MatcherConfig {
    /// The literal text compiled as a regex, with a case flag.
    Full { match_str: String, case_insensitive: bool },
    /// An arbitrary regex, compiled as written.
    Regex { match_str: String },
    /// Whitespace tokens of the text, matching when any one is present.
    Any { match_str: String, case_insensitive: bool },
}

/// The mathematical view of a matcher.
pub ghost enum MatcherView {
    Full { match_str: Seq<char>, case_insensitive: bool },
    Regex { match_str: Seq<char> },
    Any { match_str: Seq<char>, case_insensitive: bool },
}

impl View for MatcherConfig {
    type V = MatcherView;

    open spec fn view(&self) -> MatcherView {
        match self {
            MatcherConfig::Full { match_str, case_insensitive } => MatcherView::Full {
                match_str: match_str@,
                case_insensitive: *case_insensitive,
            },
            MatcherConfig::Regex { match_str } => MatcherView::Regex { match_str: match_str@ },
            MatcherConfig::Any { match_str, case_insensitive } => MatcherView::Any {
                match_str: match_str@,
                case_insensitive: *case_insensitive,
            },
        }
    }
}

/// A single pattern's outcome: whether it matches, when the regex
/// crate accepts the pattern.
pub open spec fn eval_regex(pattern: Seq<char>, ci: bool, body: Seq<char>) -> Result<bool, ()> {
    if regex_compiles(pattern, ci) {
        Ok(regex_is_match(pattern, ci, body))
    } else {
        Err(())
    }
}

/// The any-of-tokens outcome: tokens are tried in order; the first
/// match wins, and an invalid pattern reached before any match fails
/// the evaluation.
pub open spec fn eval_any(tokens: Seq<Seq<char>>, ci: bool, body: Seq<char>) -> Result<bool, ()>
    decreases tokens.len(),
{
    if tokens.len() == 0 {
        Ok(false)
    } else if !regex_compiles(tokens.first(), ci) {
        Err(())
    } else if regex_is_match(tokens.first(), ci, body) {
        Ok(true)
    } else {
        eval_any(tokens.drop_first(), ci, body)
    }
}

/// A matcher's outcome against a body.
pub open spec fn eval_matcher(m: MatcherView, body: Seq<char>) -> Result<bool, ()> {
    match m {
        MatcherView::Full { match_str, case_insensitive } => eval_regex(
            match_str,
            case_insensitive,
            body,
        ),
        MatcherView::Regex { match_str } => eval_regex(match_str, false, body),
        MatcherView::Any { match_str, case_insensitive } => eval_any(
            spec_tokens(match_str),
            case_insensitive,
            body,
        ),
    }
}

/// Evaluates a matcher against a body.
fn run_matcher(m: &MatcherConfig, body: &str) -> (r: Result<bool, TaggingError>)
    ensures
        r matches Ok(b) ==> eval_matcher(m@, body@) == Ok::<bool, ()>(b),
        r matches Err(e) ==> (eval_matcher(m@, body@) is Err && e is RegexError),
{
    match m {
        MatcherConfig::Full { match_str, case_insensitive } => {
            match regex_match(match_str.as_str(), *case_insensitive, body) {
                Some(b) => Ok(b),
                None => Err(TaggingError::RegexError(match_str.clone())),
            }
        },
        MatcherConfig::Regex { match_str } => {
            match regex_match(match_str.as_str(), false, body) {
                Some(b) => Ok(b),
                None => Err(TaggingError::RegexError(match_str.clone())),
            }
        },
        MatcherConfig::Any { match_str, case_insensitive } => {
            let tokens = crate::text::split_tokens(match_str.as_str());
            let ghost tvs = spec_tokens(match_str@);
            let mut k: usize = 0;
            assert(tvs.subrange(0, tvs.len() as int) =~= tvs);
            while k < tokens.len()
                invariant
                    0 <= k <= tvs.len(),
                    tokens.deep_view() == tvs,
                    tvs.len() == tokens@.len(),
                    eval_matcher(m@, body@) == eval_any(tvs, *case_insensitive, body@),
                    eval_any(tvs, *case_insensitive, body@) == eval_any(
                        tvs.subrange(k as int, tvs.len() as int),
                        *case_insensitive,
                        body@,
                    ),
                decreases tvs.len() - k,
            {
                let ghost rest = tvs.subrange(k as int, tvs.len() as int);
                let ghost rest1 = tvs.subrange(k + 1 as int, tvs.len() as int);
                proof {
                    assert(rest.first() == tvs[k as int]);
                    assert(rest.drop_first() =~= rest1);
                    assert(tokens@[k as int]@ == tokens.deep_view()[k as int]);
                }
                match regex_match(tokens[k].as_str(), *case_insensitive, body) {
                    Some(true) => {
                        return Ok(true);
                    },
                    Some(false) => {},
                    None => {
                        return Err(TaggingError::RegexError(tokens[k].clone()));
                    },
                }
                k = k + 1;
            }
            assert(tvs.subrange(tvs.len() as int, tvs.len() as int) =~= Seq::<Seq<char>>::empty());
            Ok(false)
        },
    }
}

//////////////////////////////////////////////////////////////////////////
// Tag configuration
//////////////////////////////////////////////////////////////////////////

/// A configured tag.
#[derive(Debug, Clone)]
pub struct TagConfig {
    pub id: TagId,
    pub name: String,
    pub color: Option<String>,
    pub matcher: MatcherConfig,
}

/// The mathematical view of a tag.
#[verifier::ext_equal]
pub ghost struct TagView {
    pub id: TagId,
    pub name: Seq<char>,
    pub color: Option<Seq<char>>,
    pub matcher: MatcherView,
}

impl View for TagConfig {
    type V = TagView;

    open spec fn view(&self) -> TagView {
        TagView {
            id: self.id,
            name: self.name@,
            color: view_opt_string(self.color),
            matcher: self.matcher@,
        }
    }
}

impl TagConfig {
    /// A copy of this tag.
    pub fn duplicate(&self) -> (r: TagConfig)
        ensures
            r@ == self@,
    {
        TagConfig {
            id: self.id,
            name: self.name.clone(),
            color: crate::document::clone_string_opt(&self.color),
            matcher: match &self.matcher {
                MatcherConfig::Full { match_str, case_insensitive } => MatcherConfig::Full {
                    match_str: match_str.clone(),
                    case_insensitive: *case_insensitive,
                },
                MatcherConfig::Regex { match_str } => MatcherConfig::Regex {
                    match_str: match_str.clone(),
                },
                MatcherConfig::Any { match_str, case_insensitive } => MatcherConfig::Any {
                    match_str: match_str.clone(),
                    case_insensitive: *case_insensitive,
                },
            },
        }
    }
}

/// The persisted tag configuration: the last assigned id and the tags,
/// in configuration order.
#[derive(Debug, Clone)]
pub struct TagsConfig {
    pub curr_id: TagId,
    pub tags: Vec<TagConfig>,
}

/// The mathematical view of the tag configuration.
#[verifier::ext_equal]
pub ghost struct TagsView {
    pub curr_id: TagId,
    pub tags: Seq<TagView>,
}

/// The views of a tag vector, in order.
pub open spec fn tags_view(v: Vec<TagConfig>) -> Seq<TagView> {
    Seq::new(v@.len(), |i: int| v@[i]@)
}

impl View for TagsConfig {
    type V = TagsView;

    open spec fn view(&self) -> TagsView {
        TagsView { curr_id: self.curr_id, tags: tags_view(self.tags) }
    }
}

impl core::default::Default for TagsConfig {
    /// An empty configuration: no tags, the id counter at zero.
    fn default() -> (r: TagsConfig)
        ensures
            r@.curr_id == 0,
            r@.tags =~= Seq::<TagView>::empty(),
    {
        TagsConfig { curr_id: 0, tags: Vec::new() }
    }
}

/// Removes every tag with this id.
pub open spec fn tags_remove(tags: Seq<TagView>, id: TagId) -> Seq<TagView>
    decreases tags.len(),
{
    if tags.len() == 0 {
        tags
    } else {
        let rest = tags_remove(tags.drop_last(), id);
        if tags.last().id == id {
            rest
        } else {
            rest.push(tags.last())
        }
    }
}

/// The tag with this id, scanning from the front.
pub open spec fn spec_tag_get(tags: Seq<TagView>, id: TagId) -> Option<TagView>
    decreases tags.len(),
{
    if tags.len() == 0 {
        None
    } else if tags.first().id == id {
        Some(tags.first())
    } else {
        spec_tag_get(tags.drop_first(), id)
    }
}

/// A configuration is well formed when tag ids are unique and no tag's
/// id exceeds the counter.
pub open spec fn tags_wf(cfg: TagsView) -> bool {
    &&& forall|i: int, j: int|
        0 <= i < j < cfg.tags.len() ==> (#[trigger] cfg.tags[i]).id != (#[trigger] cfg.tags[j]).id
    &&& forall|i: int| 0 <= i < cfg.tags.len() ==> (#[trigger] cfg.tags[i]).id <= cfg.curr_id
}

//////////////////////////////////////////////////////////////////////////
// The tagger
//////////////////////////////////////////////////////////////////////////

/// The ids of the tags whose matcher matches the body, in configuration
/// order; the first pattern that fails to compile fails the whole
/// evaluation.
pub open spec fn matching_tags(tags: Seq<TagView>, body: Seq<char>) -> Result<Seq<TagId>, ()>
    decreases tags.len(),
{
    if tags.len() == 0 {
        Ok(seq![])
    } else {
        match eval_matcher(tags.first().matcher, body) {
            Err(()) => Err(()),
            Ok(m) => match matching_tags(tags.drop_first(), body) {
                Err(()) => Err(()),
                Ok(rest) => Ok(
                    (if m {
                        seq![tags.first().id]
                    } else {
                        Seq::<TagId>::empty()
                    }) + rest,
                ),
            },
        }
    }
}

/// What tagging a document does to it, given its body: the matching
/// tag ids are appended, the inferred date replaces the stored one when
/// a date candidate is found, and the detected language replaces the
/// stored one when one is detected.
pub open spec fn spec_tagged(d: crate::document::DocView, body: Seq<char>, ids: Seq<
    TagId,
>) -> crate::document::DocView {
    let date = if date_candidates_of(body).len() > 0 {
        parsed_date_of(date_candidates_of(body)[0])
    } else {
        d.extracted.doc_date
    };
    let lang = match detected_lang_of(body) {
        Some(c) => Some(c),
        None => d.language,
    };
    crate::document::DocView {
        tags: d.tags + ids,
        language: lang,
        extracted: crate::document::ExtractedView { doc_date: date, ..d.extracted },
        ..d
    }
}

/// The rule engine: the configured tags and their matchers.
pub struct Tagger {
    cfg: TagsConfig,
}

impl Tagger {
    /// The mathematical view: the tag configuration.
    pub closed spec fn view(&self) -> TagsView {
        self.cfg@
    }

    pub open spec fn wf(&self) -> bool {
        tags_wf(self@)
    }

    /// A tagger over a loaded configuration (a missing file loads as
    /// the default, empty one). A configuration with duplicate tag ids
    /// or a tag id above the counter is corrupt and fails the load.
    pub fn new(cfg: TagsConfig) -> (r: Result<Tagger, TaggingError>)
        ensures
            tags_wf(cfg@) ==> (r matches Ok(t) && t@ == cfg@ && t.wf()),
            !tags_wf(cfg@) ==> (r matches Err(e) && e is ConfigError),
    {
        let ghost tvs = tags_view(cfg.tags);
        let mut i: usize = 0;
        while i < cfg.tags.len()
            invariant
                0 <= i <= tvs.len(),
                tvs == tags_view(cfg.tags),
                tvs.len() == cfg.tags@.len(),
                forall|k: int, l: int|
                    0 <= k < l < i ==> (#[trigger] tvs[k]).id != (#[trigger] tvs[l]).id,
                forall|k: int| 0 <= k < i ==> (#[trigger] tvs[k]).id <= cfg.curr_id,
            decreases tvs.len() - i,
        {
            if cfg.tags[i].id > cfg.curr_id {
                proof {
                    assert(tvs[i as int].id == cfg.tags@[i as int]@.id);
                    assert(!tags_wf(cfg@));
                }
                return Err(TaggingError::ConfigError(String::from_str("tag id above counter")));
            }
            let mut j: usize = 0;
            while j < i
                invariant
                    0 <= j <= i < tvs.len(),
                    tvs == tags_view(cfg.tags),
                    tvs.len() == cfg.tags@.len(),
                    forall|k: int| 0 <= k < j ==> (#[trigger] tvs[k]).id != tvs[i as int].id,
                decreases i - j,
            {
                if cfg.tags[j].id == cfg.tags[i].id {
                    proof {
                        assert(tvs[j as int].id == cfg.tags@[j as int]@.id);
                        assert(tvs[i as int].id == cfg.tags@[i as int]@.id);
                        assert(!tags_wf(cfg@));
                    }
                    return Err(TaggingError::ConfigError(String::from_str("duplicate tag id")));
                }
                j = j + 1;
            }
            i = i + 1;
        }
        Ok(Tagger { cfg })
    }

    /// The configuration to persist: the tagger's own.
    pub fn config(&self) -> (r: &TagsConfig)
        ensures
            r@ == self@,
    {
        &self.cfg
    }

    /// Adds a tag under a freshly assigned id: the counter is bumped
    /// and its new value replaces whatever id the caller put in the
    /// tag. Returns the assigned id.
    pub fn add_tag(&mut self, tag: TagConfig) -> (r: TagId)
        requires
            old(self)@.curr_id < u64::MAX,
        ensures
            final(self)@.curr_id == old(self)@.curr_id + 1,
            r == final(self)@.curr_id,
            final(self)@.tags == old(self)@.tags.push(
                (TagView { id: final(self)@.curr_id, ..tag@ }),
            ),
            old(self).wf() ==> final(self).wf(),
    {
        let mut tag = tag;
        self.cfg.curr_id = self.cfg.curr_id + 1;
        tag.id = self.cfg.curr_id;
        let ghost prev = tags_view(self.cfg.tags);
        self.cfg.tags.push(tag);
        proof {
            assert(tags_view(self.cfg.tags) =~= prev.push(
                (TagView { id: self.cfg.curr_id, ..tag@ }),
            ));
            if old(self).wf() {
                assert forall|i: int, j: int|
                    0 <= i < j < self@.tags.len() implies (#[trigger] self@.tags[i]).id != (
                #[trigger] self@.tags[j]).id by {
                    if j < self@.tags.len() - 1 {
                        assert(self@.tags[i] == prev[i] && self@.tags[j] == prev[j]);
                    } else {
                        assert(self@.tags[i] == prev[i]);
                        assert(prev[i].id <= old(self)@.curr_id);
                    }
                }
            }
        }
        self.cfg.curr_id
    }

    /// Replaces the tag of this id, keeping the id, when one exists;
    /// otherwise adds the tag under a fresh id as `add_tag` does. A
    /// replaced tag moves to the end of the configuration order.
    pub fn add_or_replace_tag(&mut self, tag: TagConfig) -> (r: TagId)
        requires
            old(self)@.curr_id < u64::MAX,
        ensures
            spec_tag_get(old(self)@.tags, tag@.id) is Some ==> ({
                &&& final(self)@.curr_id == old(self)@.curr_id
                &&& r == tag@.id
                &&& final(self)@.tags == tags_remove(old(self)@.tags, tag@.id).push(tag@)
            }),
            spec_tag_get(old(self)@.tags, tag@.id) is None ==> ({
                &&& final(self)@.curr_id == old(self)@.curr_id + 1
                &&& r == final(self)@.curr_id
                &&& final(self)@.tags == old(self)@.tags.push(
                    (TagView { id: final(self)@.curr_id, ..tag@ }),
                )
            }),
            old(self).wf() ==> final(self).wf(),
    {
        let existing = self.get_tag(tag.id);
        match existing {
            None => self.add_tag(tag),
            Some(_) => {
                let id = tag.id;
                Self::remove_tag_entry(&mut self.cfg.tags, id);
                let ghost prev = tags_view(self.cfg.tags);
                self.cfg.tags.push(tag);
                proof {
                    assert(tags_view(self.cfg.tags) =~= prev.push(tag@));
                    if old(self).wf() {
                        lemma_tags_remove_props(old(self)@.tags, id);
                        lemma_tag_get_some_iff(old(self)@.tags, id);
                        assert forall|i: int, j: int|
                            0 <= i < j < self@.tags.len() implies (#[trigger] self@.tags[i]).id
                            != (#[trigger] self@.tags[j]).id by {
                            if j < self@.tags.len() - 1 {
                                assert(self@.tags[i] == prev[i] && self@.tags[j] == prev[j]);
                            } else {
                                assert(self@.tags[i] == prev[i]);
                            }
                        }
                        assert forall|i: int| 0 <= i < self@.tags.len() implies (
                        #[trigger] self@.tags[i]).id <= self@.curr_id by {
                            if i < self@.tags.len() - 1 {
                                assert(self@.tags[i] == prev[i]);
                            } else {
                                let k = choose|k: int|
                                    0 <= k < old(self)@.tags.len() && (#[trigger] old(
                                        self,
                                    )@.tags[k]).id == id;
                                assert(old(self)@.tags[k].id <= old(self)@.curr_id);
                            }
                        }
                    }
                }
                id
            },
        }
    }

    /// Drops the tag of this id from the configuration. Documents that
    /// referenced it are not rewritten.
    pub fn remove_tag(&mut self, id: TagId)
        ensures
            final(self)@.curr_id == old(self)@.curr_id,
            final(self)@.tags == tags_remove(old(self)@.tags, id),
            old(self).wf() ==> final(self).wf(),
    {
        Self::remove_tag_entry(&mut self.cfg.tags, id);
        proof {
            if old(self).wf() {
                lemma_tags_remove_props(old(self)@.tags, id);
            }
        }
    }

    /// Removes every tag of `id` from `v`.
    fn remove_tag_entry(v: &mut Vec<TagConfig>, id: TagId)
        ensures
            tags_view(*final(v)) == tags_remove(tags_view(*old(v)), id),
    {
        let ghost m = tags_view(*old(v));
        let mut out: Vec<TagConfig> = Vec::new();
        let mut i: usize = 0;
        assert(tags_view(out) =~= tags_remove(m.subrange(0, 0), id));
        while i < v.len()
            invariant
                0 <= i <= m.len(),
                m == tags_view(*v),
                m.len() == v@.len(),
                tags_view(out) == tags_remove(m.subrange(0, i as int), id),
            decreases m.len() - i,
        {
            let ghost pre = m.subrange(0, i as int);
            let ghost pre1 = m.subrange(0, i + 1 as int);
            proof {
                assert(pre1.drop_last() =~= pre);
                assert(pre1.last() == m[i as int]);
            }
            if v[i].id != id {
                let ghost prev = tags_view(out);
                out.push(v[i].duplicate());
                proof {
                    assert(tags_view(out) =~= prev.push(m[i as int]));
                }
            }
            i = i + 1;
        }
        assert(m.subrange(0, m.len() as int) =~= m);
        *v = out;
    }

    /// The configuration of the tag with this id, if any.
    pub fn get_tag(&self, id: TagId) -> (r: Option<TagConfig>)
        ensures
            r matches Some(t) ==> spec_tag_get(self@.tags, id) == Some(t@),
            r is None ==> spec_tag_get(self@.tags, id) is None,
    {
        let ghost m = self@.tags;
        let mut i: usize = 0;
        assert(m.subrange(0, m.len() as int) =~= m);
        while i < self.cfg.tags.len()
            invariant
                0 <= i <= m.len(),
                m == self@.tags,
                m.len() == self.cfg.tags@.len(),
                spec_tag_get(m, id) == spec_tag_get(m.subrange(i as int, m.len() as int), id),
            decreases m.len() - i,
        {
            let ghost rest = m.subrange(i as int, m.len() as int);
            let ghost rest1 = m.subrange(i + 1 as int, m.len() as int);
            proof {
                assert(rest.first() == m[i as int]);
                assert(rest.drop_first() =~= rest1);
            }
            if self.cfg.tags[i].id == id {
                return Some(self.cfg.tags[i].duplicate());
            }
            i = i + 1;
        }
        assert(m.subrange(m.len() as int, m.len() as int) =~= Seq::<TagView>::empty());
        None
    }

    /// The configuration of every tag, in configuration order.
    pub fn get_tags(&self) -> (r: Vec<TagConfig>)
        ensures
            tags_view(r) == self@.tags,
    {
        let mut r: Vec<TagConfig> = Vec::new();
        let mut i: usize = 0;
        assert(tags_view(r) =~= self@.tags.subrange(0, 0));
        while i < self.cfg.tags.len()
            invariant
                0 <= i <= self@.tags.len(),
                self@.tags.len() == self.cfg.tags@.len(),
                tags_view(r) == self@.tags.subrange(0, i as int),
            decreases self@.tags.len() - i,
        {
            let ghost prev = tags_view(r);
            r.push(self.cfg.tags[i].duplicate());
            proof {
                assert(tags_view(r) =~= prev.push(self@.tags[i as int]));
                assert(prev.push(self@.tags[i as int]) =~= self@.tags.subrange(0, i + 1 as int));
            }
            i = i + 1;
        }
        assert(self@.tags.subrange(0, self@.tags.len() as int) =~= self@.tags);
        r
    }

    /// Classifies a document: every configured matcher runs against the
    /// body, the ids of the matching tags are appended to the
    /// document's, and the inferred date and language are filled in.
    /// Fails with `EmptyBody` exactly when the document has no body,
    /// and with `RegexError` when a pattern does not compile; on any
    /// failure the document is unchanged.
    pub fn tag_document(&self, doc: &mut DocumentData) -> (r: Result<(), TaggingError>)
        ensures
            old(doc)@.body is None ==> (r matches Err(e) && (e matches TaggingError::EmptyBody(i)
                && i == old(doc)@.id) && final(doc)@ == old(doc)@),
            old(doc)@.body matches Some(b) ==> match matching_tags(self@.tags, b) {
                Ok(ids) => r is Ok && final(doc)@ == spec_tagged(old(doc)@, b, ids),
                Err(()) => (r matches Err(e) && e is RegexError && final(doc)@ == old(doc)@),
            },
    {
        let body = match &doc.body {
            None => {
                return Err(TaggingError::EmptyBody(doc.id));
            },
            Some(b) => b.clone(),
        };
        let ghost bv = body@;
        let mut ids: Vec<TagId> = Vec::new();
        let ghost m = self@.tags;
        let mut i: usize = 0;
        assert(m.subrange(0, m.len() as int) =~= m);
        while i < self.cfg.tags.len()
            invariant
                0 <= i <= m.len(),
                m == self@.tags,
                m.len() == self.cfg.tags@.len(),
                bv == body@,
                doc@ == old(doc)@,
                old(doc)@.body == Some(bv),
                matching_tags(m, bv) == (match matching_tags(
                    m.subrange(i as int, m.len() as int),
                    bv,
                ) {
                    Ok(rest) => Ok::<Seq<TagId>, ()>(ids@ + rest),
                    Err(()) => Err::<Seq<TagId>, ()>(()),
                }),
            decreases m.len() - i,
        {
            let ghost rest = m.subrange(i as int, m.len() as int);
            let ghost rest1 = m.subrange(i + 1 as int, m.len() as int);
            proof {
                assert(rest.first() == m[i as int]);
                assert(rest.drop_first() =~= rest1);
                assert(self.cfg.tags@[i as int]@ == m[i as int]);
            }
            match run_matcher(&self.cfg.tags[i].matcher, body.as_str()) {
                Err(e) => {
                    assert(matching_tags(m, bv) is Err);
                    return Err(e);
                },
                Ok(matched) => {
                    let ghost prev = ids@;
                    if matched {
                        ids.push(self.cfg.tags[i].id);
                        proof {
                            assert(ids@ =~= prev.push(m[i as int].id));
                            if matching_tags(rest1, bv) is Ok {
                                let r2 = matching_tags(rest1, bv)->Ok_0;
                                assert(prev + (seq![m[i as int].id] + r2) =~= ids@ + r2);
                            }
                        }
                    } else {
                        proof {
                            if matching_tags(rest1, bv) is Ok {
                                let r2 = matching_tags(rest1, bv)->Ok_0;
                                assert(prev + (Seq::<TagId>::empty() + r2) =~= ids@ + r2);
                            }
                        }
                    }
                },
            }
            i = i + 1;
        }
        proof {
            assert(m.subrange(m.len() as int, m.len() as int) =~= Seq::<TagView>::empty());
            assert(matching_tags(m, bv) == Ok::<Seq<TagId>, ()>(ids@ + Seq::<TagId>::empty()));
            assert(ids@ + Seq::<TagId>::empty() =~= ids@);
        }
        // append the matching ids
        let mut k: usize = 0;
        let ghost tags0 = doc.tags@;
        assert(tags0 + ids@.subrange(0, 0) =~= tags0);
        while k < ids.len()
            invariant
                0 <= k <= ids@.len(),
                tags0 == old(doc)@.tags,
                doc.tags@ == tags0 + ids@.subrange(0, k as int),
                doc@.id == old(doc)@.id,
                doc@.title == old(doc)@.title,
                doc@.original_filename == old(doc)@.original_filename,
                doc@.body == old(doc)@.body,
                doc@.imported_date == old(doc)@.imported_date,
                doc@.hash == old(doc)@.hash,
                doc@.file_size == old(doc)@.file_size,
                doc@.language == old(doc)@.language,
                doc@.extracted == old(doc)@.extracted,
            decreases ids@.len() - k,
        {
            doc.tags.push(ids[k]);
            proof {
                assert(doc.tags@ =~= tags0 + ids@.subrange(0, k + 1 as int));
            }
            k = k + 1;
        }
        assert(ids@.subrange(0, ids@.len() as int) =~= ids@);
        // infer the document date
        let dates = extract_dates(body.as_str());
        if dates.len() > 0 {
            assert(dates.deep_view()[0] == dates@[0]@);
            doc.extracted.doc_date = parse_date_utc(dates[0].as_str());
        }
        // infer the language
        match detect_language(body.as_str()) {
            Some(code) => {
                doc.language = Some(code);
            },
            None => {},
        }
        proof {
            assert(final(doc)@ =~= spec_tagged(old(doc)@, bv, matching_tags(m, bv)->Ok_0));
        }
        Ok(())
    }
}

/// Removal drops exactly the tags of the id and keeps the others with
/// their properties.
pub proof fn lemma_tags_remove_props(tags: Seq<TagView>, id: TagId)
    ensures
        forall|i: int|
            0 <= i < tags_remove(tags, id).len() ==> (#[trigger] tags_remove(tags, id)[i]).id
                != id,
        forall|i: int|
            0 <= i < tags_remove(tags, id).len() ==> tags.contains(
                #[trigger] tags_remove(tags, id)[i],
            ),
        (forall|i: int, j: int|
            0 <= i < j < tags.len() ==> (#[trigger] tags[i]).id != (#[trigger] tags[j]).id)
            ==> (forall|i: int, j: int|
            0 <= i < j < tags_remove(tags, id).len() ==> (#[trigger] tags_remove(tags, id)[i]).id
                != (#[trigger] tags_remove(tags, id)[j]).id),
    decreases tags.len(),
{
    if tags.len() > 0 {
        let d = tags.drop_last();
        assert(forall|i: int| 0 <= i < d.len() ==> d[i] == #[trigger] tags[i]);
        lemma_tags_remove_props(d, id);
        let rem = tags_remove(tags, id);
        let remd = tags_remove(d, id);
        assert forall|i: int| 0 <= i < rem.len() implies tags.contains(#[trigger] rem[i]) by {
            if tags.last().id != id && i == rem.len() - 1 {
                assert(rem[i] == tags.last());
                assert(tags[tags.len() - 1] == tags.last());
            } else {
                assert(rem[i] == remd[i]);
                assert(d.contains(remd[i]));
                let j = choose|j: int| 0 <= j < d.len() && d[j] == remd[i];
                assert(tags[j] == remd[i]);
            }
        }
        if forall|i: int, j: int|
            0 <= i < j < tags.len() ==> (#[trigger] tags[i]).id != (#[trigger] tags[j]).id {
            assert forall|i: int, j: int|
                0 <= i < j < rem.len() implies (#[trigger] rem[i]).id != (#[trigger] rem[j]).id
                by {
                if tags.last().id != id && j == rem.len() - 1 {
                    assert(rem[j] == tags.last());
                    assert(rem[i] == remd[i]);
                    assert(d.contains(remd[i]));
                    let k = choose|k: int| 0 <= k < d.len() && d[k] == remd[i];
                    assert(tags[k].id == rem[i].id);
                    assert(tags[tags.len() - 1] == tags.last());
                }
            }
        }
    }
}

/// A tag lookup succeeds exactly when some tag carries the id.
pub proof fn lemma_tag_get_some_iff(tags: Seq<TagView>, id: TagId)
    ensures
        (spec_tag_get(tags, id) is Some) <==> (exists|i: int|
            0 <= i < tags.len() && (#[trigger] tags[i]).id == id),
    decreases tags.len(),
{
    if tags.len() > 0 {
        lemma_tag_get_some_iff(tags.drop_first(), id);
        let d = tags.drop_first();
        if tags.first().id == id {
            assert(tags[0].id == id);
        } else {
            if spec_tag_get(tags, id) is Some {
                let i = choose|i: int| 0 <= i < d.len() && (#[trigger] d[i]).id == id;
                assert(tags[i + 1].id == id);
            } else {
                if exists|i: int| 0 <= i < tags.len() && (#[trigger] tags[i]).id == id {
                    let i = choose|i: int| 0 <= i < tags.len() && (#[trigger] tags[i]).id == id;
                    assert(i > 0);
                    assert(d[i - 1].id == id);
                }
            }
        }
    }
}

} // verus!
