//! The language registry and the retrieval state served to request
//! handlers. The registry is a closed enumeration of the supported
//! languages; an unsupported tag is a terminal error, never a fallback.

use vstd::prelude::*;
use vstd::string::StringSliceAdditionalSpecFns;

use crate::mutation;
use crate::mutation::MutationCollection;
use crate::text::str_eq;
use crate::ts;
use crate::ts::ParsedSource;

verus! {

/// Request-level errors of the retrieval paths.
#[derive(Clone, Copy, PartialEq, Eq, Structural, Debug)]
pub enum Error {
    /// The embedding collaborator failed on the prompt.
    EmbedFailed,
    /// The request named a language with no grammar or no index.
    UnknownLang,
    /// The parser collaborator produced no tree for the request body.
    SnippetParsing,
}

impl Error {
    /// The message the error is reported with.
    pub fn message(&self) -> (r: String)
        ensures
            *self is EmbedFailed ==> r@ == "failed to embed prompt"@,
            *self is UnknownLang ==> r@ == "snippets were requested for an unknown language"@,
            *self is SnippetParsing ==> r@ == "failed to parse corpus of code to apply mutation on"@,
    {
        match self {
            Error::EmbedFailed => String::from_str("failed to embed prompt"),
            Error::UnknownLang => String::from_str(
                "snippets were requested for an unknown language",
            ),
            Error::SnippetParsing => String::from_str(
                "failed to parse corpus of code to apply mutation on",
            ),
        }
    }
}

/// The closed set of languages the registry supports. Each maps to one
/// grammar handle of the parser collaborator.
#[derive(Clone, Copy, PartialEq, Eq, Structural, Debug)]
pub enum Lang {
    Go,
    C,
    Cpp,
    Js,
    Rust,
}

/// The language a tag resolves to: file extensions and explicit names are
/// treated alike, and unknown tags resolve to nothing.
pub open spec fn lang_of_tag(s: Seq<char>) -> Option<Lang> {
    if s == "go"@ {
        Some(Lang::Go)
    } else if s == "c"@ || s == "h"@ {
        Some(Lang::C)
    } else if s == "cpp"@ || s == "hpp"@ {
        Some(Lang::Cpp)
    } else if s == "js"@ || s == "ts"@ {
        Some(Lang::Js)
    } else if s == "rs"@ {
        Some(Lang::Rust)
    } else {
        None
    }
}

/// Resolves a language tag to its registry entry; an unsupported tag is a
/// terminal `UnknownLang`, exactly when `lang_of_tag` resolves to nothing.
pub fn lang_from_name(s: &str) -> (r: Result<Lang, Error>)
    ensures
        match r {
            Ok(l) => lang_of_tag(s@) == Some(l),
            Err(e) => lang_of_tag(s@) is None && e == Error::UnknownLang,
        },
{
    if str_eq(s, "go") {
        Ok(Lang::Go)
    } else if str_eq(s, "c") || str_eq(s, "h") {
        Ok(Lang::C)
    } else if str_eq(s, "cpp") || str_eq(s, "hpp") {
        Ok(Lang::Cpp)
    } else if str_eq(s, "js") || str_eq(s, "ts") {
        Ok(Lang::Js)
    } else if str_eq(s, "rs") {
        Ok(Lang::Rust)
    } else {
        Err(Error::UnknownLang)
    }
}

/// The file extension visible at scan position `i`: the text after the last
/// `.` of the final path component, none when the component has no `.` or
/// starts with its only `.`.
pub open spec fn ext_of_at(p: Seq<char>, i: int) -> Option<Seq<char>>
    decreases i,
{
    if i <= 0 || i > p.len() {
        None
    } else if p[i - 1] == '/' {
        None
    } else if p[i - 1] == '.' {
        if i - 1 == 0 || p[i - 2] == '/' {
            None
        } else {
            Some(p.subrange(i, p.len() as int))
        }
    } else {
        ext_of_at(p, i - 1)
    }
}

/// The file extension of a path, if it has one.
pub open spec fn ext_of(p: Seq<char>) -> Option<Seq<char>> {
    ext_of_at(p, p.len() as int)
}

/// Derives the language tag from the path's file extension and resolves it;
/// a path without an extension, or with an unmapped one, is `UnknownLang`.
pub fn lang_from_file_extension(path: &str) -> (r: Result<Lang, Error>)
    ensures
        match r {
            Ok(l) => ext_of(path@) matches Some(e) && lang_of_tag(e) == Some(l),
            Err(err) => err == Error::UnknownLang && match ext_of(path@) {
                Some(e) => lang_of_tag(e) is None,
                None => true,
            },
        },
{
    let n = path.unicode_len();
    let mut i: usize = n;
    while i > 0
        invariant
            n == path@.len(),
            i <= n,
            ext_of(path@) == ext_of_at(path@, i as int),
        decreases i,
    {
        let c = path.get_char(i - 1);
        if c == '/' {
            return Err(Error::UnknownLang);
        }
        if c == '.' {
            if i == 1 {
                return Err(Error::UnknownLang);
            }
            if path.get_char(i - 2) == '/' {
                return Err(Error::UnknownLang);
            }
            let ext = path.substring_char(i, n);
            return lang_from_name(ext);
        }
        i -= 1;
    }
    Err(Error::UnknownLang)
}

/// Maps the parser collaborator's outcome to the request error: no tree
/// means the body could not be parsed.
pub fn resolve_parse(parsed: Option<ParsedSource>) -> (r: Result<ParsedSource, Error>)
    ensures
        parsed matches Some(p) ==> r == Ok::<ParsedSource, Error>(p),
        parsed is None ==> r == Err::<ParsedSource, Error>(Error::SnippetParsing),
{
    match parsed {
        Some(p) => Ok(p),
        None => Err(Error::SnippetParsing),
    }
}

/// Parses a request body under a language's grammar into the shared tree
/// used by every candidate of the request.
pub fn parse_into_tree(body: &[u8], lang: Lang) -> (r: Result<ParsedSource, Error>)
    ensures
        match r {
            Ok(p) => ts::ts_parses(lang, body@) && p.lang() == lang && p.src() == body@,
            Err(e) => e == Error::SnippetParsing && !ts::ts_parses(lang, body@),
        },
{
    resolve_parse(ts::parse_source(lang, body))
}

/// Renders the parse tree of a source buffer as an s-expression (debug
/// aid).
pub fn dump_expression(body: &[u8], lang: Lang) -> (r: Result<String, Error>)
    ensures
        match r {
            Ok(s) => ts::ts_parses(lang, body@) && s@ == ts::ts_sexp(lang, body@),
            Err(e) => e == Error::SnippetParsing && !ts::ts_parses(lang, body@),
        },
{
    let p = parse_into_tree(body, lang)?;
    Ok(ts::tree_sexp(&p))
}

/// Index of the first store keyed by this language tag.
pub open spec fn find_lang(d: Seq<(String, Vec<String>)>, lang: Seq<char>) -> Option<int>
    decreases d.len(),
{
    if d.len() == 0 {
        None
    } else if d.first().0@ == lang {
        Some(0int)
    } else {
        match find_lang(d.drop_first(), lang) {
            None => None,
            Some(j) => Some(j + 1),
        }
    }
}

/// What [`find_lang`] finds is an entry with that tag, and nothing is found
/// only when no entry has the tag.
pub proof fn lemma_find_lang(d: Seq<(String, Vec<String>)>, lang: Seq<char>)
    ensures
        match find_lang(d, lang) {
            Some(j) => 0 <= j < d.len() && d[j].0@ == lang,
            None => forall|k: int| 0 <= k < d.len() ==> (#[trigger] d[k]).0@ != lang,
        },
    decreases d.len(),
{
    if d.len() > 0 && d.first().0@ != lang {
        lemma_find_lang(d.drop_first(), lang);
        assert(forall|k: int| 1 <= k < d.len() ==> d.drop_first()[k - 1] == #[trigger] d[k]);
    }
}

/// The texts a list of result identifiers selects from a store, in the
/// order the identifiers were returned; an identifier out of the store's
/// range selects nothing.
pub open spec fn collect_ids(bodies: Seq<Seq<char>>, ids: Seq<usize>) -> Seq<Seq<char>>
    decreases ids.len(),
{
    if ids.len() == 0 {
        Seq::empty()
    } else {
        let rest = collect_ids(bodies, ids.drop_last());
        if ids.last() < bodies.len() {
            rest.push(bodies[ids.last() as int])
        } else {
            rest
        }
    }
}

/// Order preservation: when every identifier the search returned is in
/// range, the collected texts are exactly those identifiers' texts, in the
/// order the search ranked them.
pub proof fn lemma_collect_order(bodies: Seq<Seq<char>>, ids: Seq<usize>)
    requires
        forall|k: int| 0 <= k < ids.len() ==> (#[trigger] ids[k]) < bodies.len(),
    ensures
        collect_ids(bodies, ids) == ids.map_values(|i: usize| bodies[i as int]),
    decreases ids.len(),
{
    let mapped = ids.map_values(|i: usize| bodies[i as int]);
    if ids.len() == 0 {
        assert(collect_ids(bodies, ids) =~= mapped);
    } else {
        lemma_collect_order(bodies, ids.drop_last());
        assert(ids.drop_last().map_values(|i: usize| bodies[i as int]) =~= mapped.drop_last());
        assert(collect_ids(bodies, ids) =~= mapped);
    }
}

/// The per-language snippet stores of the generate path: each supported
/// tag's snippet bodies in insertion order. The ANN collaborator holds the
/// matching embedding vectors and returns positions into these stores.
pub struct Generate {
    pub dict: Vec<(String, Vec<String>)>,
}

impl Generate {
    /// Each language tag keys at most one store.
    pub open spec fn wf(self) -> bool {
        forall|j: int, k: int|
            0 <= j < k < self.dict@.len() ==> (#[trigger] self.dict@[j]).0@ != (
            #[trigger] self.dict@[k]).0@
    }

    pub fn new() -> (r: Generate)
        ensures
            r.dict@.len() == 0,
            r.wf(),
    {
        Generate { dict: Vec::new() }
    }

    /// Index of this language's store, if one exists.
    fn find(&self, lang: &str) -> (r: Option<usize>)
        ensures
            match r {
                Some(j) => find_lang(self.dict@, lang@) == Some(j as int),
                None => find_lang(self.dict@, lang@) is None,
            },
    {
        let n = self.dict.len();
        let mut i: usize = 0;
        proof {
            assert(self.dict@.skip(0) =~= self.dict@);
        }
        while i < n
            invariant
                n == self.dict@.len(),
                i <= n,
                match find_lang(self.dict@.skip(i as int), lang@) {
                    None => find_lang(self.dict@, lang@) is None,
                    Some(j) => find_lang(self.dict@, lang@) == Some(j + i),
                },
            decreases n - i,
        {
            proof {
                assert(self.dict@.skip(i as int).first() == self.dict@[i as int]);
                assert(self.dict@.skip(i as int).drop_first() =~= self.dict@.skip(i + 1));
            }
            if str_eq(self.dict[i].0.as_str(), lang) {
                return Some(i);
            }
            i += 1;
        }
        proof {
            assert(self.dict@.skip(n as int) =~= Seq::<(String, Vec<String>)>::empty());
        }
        None
    }

    /// Records one snippet body under a language tag during index building
    /// and returns its position, the identifier the ANN index stores for
    /// it. A tag seen for the first time opens a new store.
    pub fn add_snippet(&mut self, lang: &str, body: String) -> (id: usize)
        requires
            old(self).wf(),
        ensures
            final(self).wf(),
            match find_lang(old(self).dict@, lang@) {
                Some(j) => {
                    &&& id == old(self).dict@[j].1@.len()
                    &&& final(self).dict@.len() == old(self).dict@.len()
                    &&& final(self).dict@[j].0 == old(self).dict@[j].0
                    &&& final(self).dict@[j].1@ == old(self).dict@[j].1@.push(body)
                    &&& forall|k: int|
                        0 <= k < old(self).dict@.len() && k != j ==> final(self).dict@[k] == old(
                            self,
                        ).dict@[k]
                },
                None => {
                    &&& id == 0
                    &&& final(self).dict@.len() == old(self).dict@.len() + 1
                    &&& final(self).dict@.drop_last() == old(self).dict@
                    &&& final(self).dict@.last().0@ == lang@
                    &&& final(self).dict@.last().1@ == seq![body]
                },
            },
{
    proof {
        lemma_find_lang(self.dict@, lang@);
    }
    match self.find(lang) {
        Some(j) => {
            let entry = &mut self.dict[j];
            let id = entry.1.len();
            entry.1.push(body);
            proof {
                assert(final(self).dict@ =~= old(self).dict@.update(
                    j as int,
                    final(self).dict@[j as int],
                ));
            }
            id
        },
        None => {
            let mut bodies: Vec<String> = Vec::new();
            bodies.push(body);
            let mut tag = String::new();
            tag.append(lang);
            self.dict.push((tag, bodies));
            proof {
                assert(final(self).dict@.drop_last() =~= old(self).dict@);
                lemma_find_lang(old(self).dict@, lang@);
            }
            0
        },
    }
}

    /// Maps the identifiers the ANN search returned, nearest first, to
    /// their snippet bodies, keeping the search order. A tag with no store
    /// is a terminal `UnknownLang`.
    pub fn search(&self, lang: &str, ids: &Vec<usize>) -> (r: Result<Vec<String>, Error>)
        ensures
            match r {
                Ok(v) => find_lang(self.dict@, lang@) matches Some(j) && v.deep_view()
                    == collect_ids(self.dict@[j].1.deep_view(), ids@),
                Err(e) => e == Error::UnknownLang && find_lang(self.dict@, lang@) is None,
            },
    {
        let j = match self.find(lang) {
            None => {
                return Err(Error::UnknownLang);
            },
            Some(j) => j,
        };
        proof {
            lemma_find_lang(self.dict@, lang@);
        }
        let bodies = &self.dict[j].1;
        let ghost bv = bodies.deep_view();
        let n = ids.len();
        let mut out: Vec<String> = Vec::new();
        let mut i: usize = 0;
        proof {
            assert(ids@.take(0) =~= Seq::<usize>::empty());
            assert(out.deep_view() =~= collect_ids(bv, ids@.take(0)));
        }
        while i < n
            invariant
                n == ids@.len(),
                bv == bodies.deep_view(),
                bv.len() == bodies@.len(),
                i <= n,
                out.deep_view() == collect_ids(bv, ids@.take(i as int)),
            decreases n - i,
        {
            proof {
                assert(ids@.take(i + 1).drop_last() =~= ids@.take(i as int));
                assert(ids@.take(i + 1).last() == ids@[i as int]);
            }
            let id = ids[i];
            if id < bodies.len() {
                let ghost old_dv = out.deep_view();
                out.push(bodies[id].clone());
                proof {
                    assert(out.deep_view() =~= old_dv.push(bv[id as int]));
                }
            }
            i += 1;
        }
        proof {
            assert(ids@.take(n as int) =~= ids@);
        }
        Ok(out)
    }
}

/// A refactor request after its shared parse: the one tree every candidate
/// collection of the request is applied against.
pub struct PreparedRefactor {
    parsed: ParsedSource,
}

impl PreparedRefactor {
    /// The language the request body was parsed under.
    pub closed spec fn lang(self) -> Lang {
        self.parsed.lang()
    }

    /// The request body's bytes.
    pub closed spec fn src(self) -> Seq<u8> {
        self.parsed.src()
    }
}

/// Whether any stored tag equals this one.
pub open spec fn has_tag(tags: Seq<String>, lang: Seq<char>) -> bool {
    exists|j: int| 0 <= j < tags.len() && (#[trigger] tags[j])@ == lang
}

/// The rewritten texts a list of candidate identifiers produces: each
/// identifier in search order names one stored collection, which is applied
/// to the shared tree; a failing candidate, or an identifier naming no
/// collection, is dropped rather than failing the request.
pub open spec fn apply_ids(
    cols: Seq<MutationCollection>,
    lang: Lang,
    src: Seq<u8>,
    ids: Seq<usize>,
) -> Seq<Seq<char>>
    decreases ids.len(),
{
    if ids.len() == 0 {
        Seq::empty()
    } else {
        let rest = apply_ids(cols, lang, src, ids.drop_last());
        let i = ids.last();
        if i < cols.len() {
            match mutation::apply_spec(lang, src, cols[i as int].mutations@) {
                Ok(t) => rest.push(t),
                Err(_) => rest,
            }
        } else {
            rest
        }
    }
}

/// The refactor path's state: which language tags have an index, and the
/// flat ordered collection of compiled rules that the indexes' integer
/// identifiers point into. The ANN collaborator holds the matching
/// embedding vectors.
pub struct Refactor {
    pub langs: Vec<String>,
    pub mutations_collection: Vec<MutationCollection>,
}

impl Refactor {
    pub fn new() -> (r: Refactor)
        ensures
            r.langs@.len() == 0,
            r.mutations_collection@.len() == 0,
    {
        Refactor { langs: Vec::new(), mutations_collection: Vec::new() }
    }

    /// Whether this language tag has a refactor index.
    fn has_lang(&self, lang: &str) -> (r: bool)
        ensures
            r == has_tag(self.langs@, lang@),
    {
        let n = self.langs.len();
        let mut i: usize = 0;
        while i < n
            invariant
                n == self.langs@.len(),
                i <= n,
                forall|k: int| 0 <= k < i ==> (#[trigger] self.langs@[k])@ != lang@,
            decreases n - i,
        {
            if str_eq(self.langs[i].as_str(), lang) {
                return true;
            }
            i += 1;
        }
        false
    }

    /// Records one compiled collection under a language tag during index
    /// building and returns its position in the flat collection, the
    /// identifier the ANN index stores for it.
    pub fn add_collection(&mut self, lang: &str, c: MutationCollection) -> (id: usize)
        ensures
            id == old(self).mutations_collection@.len(),
            final(self).mutations_collection@ == old(self).mutations_collection@.push(c),
            has_tag(old(self).langs@, lang@) ==> final(self).langs@ == old(self).langs@,
            !has_tag(old(self).langs@, lang@) ==> final(self).langs@.drop_last() == old(
                self,
            ).langs@ && final(self).langs@.last()@ == lang@,
    {
        let id = self.mutations_collection.len();
        self.mutations_collection.push(c);
        if !self.has_lang(lang) {
            let mut tag = String::new();
            tag.append(lang);
            self.langs.push(tag);
            proof {
                assert(final(self).langs@.drop_last() =~= old(self).langs@);
            }
        }
        id
    }

    /// Resolves and parses a refactor request's body once, before any
    /// embedding or search: an unsupported or unindexed tag is a terminal
    /// `UnknownLang`, and a body the parser collaborator yields no tree for
    /// is a terminal `SnippetParsing`.
    pub fn prepare(&self, lang: &str, body: &str) -> (r: Result<PreparedRefactor, Error>)
        ensures
            match r {
                Ok(p) => {
                    &&& lang_of_tag(lang@) matches Some(l) && p.lang() == l
                    &&& has_tag(self.langs@, lang@)
                    &&& p.src() == body.spec_bytes()
                    &&& ts::ts_parses(p.lang(), body.spec_bytes())
                },
                Err(Error::UnknownLang) => lang_of_tag(lang@) is None || !has_tag(
                    self.langs@,
                    lang@,
                ),
                Err(Error::SnippetParsing) => lang_of_tag(lang@) matches Some(l) && has_tag(
                    self.langs@,
                    lang@,
                ) && !ts::ts_parses(l, body.spec_bytes()),
                Err(Error::EmbedFailed) => false,
            },
    {
        let l = lang_from_name(lang)?;
        if !self.has_lang(lang) {
            return Err(Error::UnknownLang);
        }
        let parsed = parse_into_tree(body.as_bytes(), l)?;
        Ok(PreparedRefactor { parsed })
    }

    /// Applies the candidate collections the ANN search returned, nearest
    /// first, to the request's shared tree, keeping the search order and
    /// dropping candidates that fail to apply.
    pub fn search(&self, prepared: &PreparedRefactor, ids: &Vec<usize>) -> (r: Vec<String>)
        ensures
            r.deep_view() == apply_ids(
                self.mutations_collection@,
                prepared.lang(),
                prepared.src(),
                ids@,
            ),
    {
        let ghost cols = self.mutations_collection@;
        let ghost lang = prepared.lang();
        let ghost src = prepared.src();
        let n = ids.len();
        let mut out: Vec<String> = Vec::new();
        let mut i: usize = 0;
        proof {
            assert(ids@.take(0) =~= Seq::<usize>::empty());
            assert(out.deep_view() =~= apply_ids(cols, lang, src, ids@.take(0)));
        }
        while i < n
            invariant
                n == ids@.len(),
                cols == self.mutations_collection@,
                lang == prepared.lang(),
                src == prepared.src(),
                i <= n,
                out.deep_view() == apply_ids(cols, lang, src, ids@.take(i as int)),
            decreases n - i,
        {
            proof {
                assert(ids@.take(i + 1).drop_last() =~= ids@.take(i as int));
                assert(ids@.take(i + 1).last() == ids@[i as int]);
            }
            let id = ids[i];
            if id < self.mutations_collection.len() {
                let ghost old_dv = out.deep_view();
                match mutation::apply(&prepared.parsed, &self.mutations_collection[id]) {
                    Ok(text) => {
                        out.push(text);
                        proof {
                            assert(out.deep_view() =~= old_dv.push(out@.last()@));
                        }
                    },
                    Err(_) => {},
                }
            }
            i += 1;
        }
        proof {
            assert(ids@.take(n as int) =~= ids@);
        }
        out
    }
}

/// The retrieval state a process serves from once the index builder has
/// run: one snippet store per generate language, and the refactor rules
/// with their language tags. The embedding model and the ANN indexes are
/// collaborators owned by the frontend.
pub struct State {
    pub generate: Generate,
    pub refactor: Refactor,
}

impl State {
    pub fn new(generate: Generate, refactor: Refactor) -> (r: State)
        ensures
            r.generate == generate,
            r.refactor == refactor,
    {
        State { generate, refactor }
    }

    /// The generate path after the prompt was embedded and searched: maps
    /// the returned identifiers to snippet bodies, nearest first.
    pub fn generate(&self, lang: &str, ids: &Vec<usize>) -> (r: Result<Vec<String>, Error>)
        ensures
            match r {
                Ok(v) => find_lang(self.generate.dict@, lang@) matches Some(j) && v.deep_view()
                    == collect_ids(self.generate.dict@[j].1.deep_view(), ids@),
                Err(e) => e == Error::UnknownLang && find_lang(self.generate.dict@, lang@) is None,
            },
    {
        self.generate.search(lang, ids)
    }

    /// The refactor path up to its shared parse, before any embedding or
    /// search.
    pub fn refactor_prepare(&self, lang: &str, body: &str) -> (r: Result<PreparedRefactor, Error>)
        ensures
            match r {
                Ok(p) => {
                    &&& lang_of_tag(lang@) matches Some(l) && p.lang() == l
                    &&& has_tag(self.refactor.langs@, lang@)
                    &&& p.src() == body.spec_bytes()
                    &&& ts::ts_parses(p.lang(), body.spec_bytes())
                },
                Err(Error::UnknownLang) => lang_of_tag(lang@) is None || !has_tag(
                    self.refactor.langs@,
                    lang@,
                ),
                Err(Error::SnippetParsing) => lang_of_tag(lang@) matches Some(l) && has_tag(
                    self.refactor.langs@,
                    lang@,
                ) && !ts::ts_parses(l, body.spec_bytes()),
                Err(Error::EmbedFailed) => false,
            },
    {
        self.refactor.prepare(lang, body)
    }

    /// The refactor path after the prompt was embedded and searched:
    /// applies the candidate collections to the shared tree, nearest first.
    pub fn refactor(&self, prepared: &PreparedRefactor, ids: &Vec<usize>) -> (r: Vec<String>)
        ensures
            r.deep_view() == apply_ids(
                self.refactor.mutations_collection@,
                prepared.lang(),
                prepared.src(),
                ids@,
            ),
    {
        self.refactor.search(prepared, ids)
    }
}

} // verus!
