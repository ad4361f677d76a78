//! The gloss table: for each word asked for, its inflected form, that form
//! carried through the sound changes to its spelling, the spelling carried on
//! to its pronunciation, and its gloss.

use crate::phon::{gloss_trace, glossed, to_orthography};
use crate::category::{category_views, Category, CategoryView};
use crate::error::{ErrorView, GlossError};
use crate::lex::{
    add_attr, attr_found, get_attr, get_word, gloss, gloss_line, inflect, inflected, word_found,
    AttrEntry, Attribute, AttributeView, Word, WordEntry, WordView,
};
use crate::text::{lemma_pieces_nonempty, pieces, spellings, split};
use vstd::prelude::*;
use vstd::string::*;

verus! {

/// A language as it was described: its words and attributes, the sound
/// changes that lead to its spelling and from there to its pronunciation, and
/// the categories and multigraphs that the sound changes refer to.
pub struct Language {
    pub vocab: Vec<WordEntry>,
    pub attributes: Vec<AttrEntry>,
    pub sc: Vec<String>,
    pub phonetic: Vec<String>,
    pub cats: Vec<Category>,
    pub multigraphs: Vec<String>,
}

/// A language as plain values.
pub struct LanguageView {
    pub vocab: Seq<WordEntry>,
    pub attributes: Seq<AttrEntry>,
    pub sc: Seq<Seq<char>>,
    pub phonetic: Seq<Seq<char>>,
    pub cats: Seq<CategoryView>,
    pub multigraphs: Seq<Seq<char>>,
}

impl View for Language {
    type V = LanguageView;

    open spec fn view(&self) -> LanguageView {
        LanguageView {
            vocab: self.vocab@,
            attributes: self.attributes@,
            sc: spellings(self.sc@),
            phonetic: spellings(self.phonetic@),
            cats: category_views(self.cats@),
            multigraphs: spellings(self.multigraphs@),
        }
    }
}

/// The rows of a gloss table; a column is what stands at one position of
/// each row.
pub struct GlossTable {
    pub inflections: Vec<String>,
    pub phonetic: Vec<String>,
    pub orthographic: Vec<String>,
    pub glosses: Vec<String>,
    pub traces: Vec<Vec<String>>,
    pub len: usize,
}

/// One column of a gloss table, as plain values.
pub struct ColumnView {
    pub inflection: Seq<char>,
    pub orthographic: Seq<char>,
    pub phonetic: Seq<char>,
    pub gloss: Seq<char>,
    pub trace: Seq<Seq<char>>,
}

/// The spelling and the pronunciation of an inflected form, with the trace
/// of how they came about.
pub struct Forms {
    pub orthographic: String,
    pub phonetic: String,
    pub trace: Vec<String>,
}

impl GlossTable {
    /// Every row has `len` entries.
    pub open spec fn well_formed(&self) -> bool {
        &&& self.inflections@.len() == self.len
        &&& self.phonetic@.len() == self.len
        &&& self.orthographic@.len() == self.len
        &&& self.glosses@.len() == self.len
        &&& self.traces@.len() == self.len
    }

    /// The columns of the table, from left to right.
    pub open spec fn columns(&self) -> Seq<ColumnView> {
        Seq::new(
            self.len as nat,
            |i: int|
                ColumnView {
                    inflection: self.inflections@[i]@,
                    orthographic: self.orthographic@[i]@,
                    phonetic: self.phonetic@[i]@,
                    gloss: self.glosses@[i]@,
                    trace: spellings(self.traces@[i]@),
                },
        )
    }
}

/// The word with one more attribute, if the attribute applies to words of its
/// class.
pub open spec fn with_attr(w: WordView, a: AttributeView) -> WordView {
    if a.affects.contains(w.class) {
        WordView { attributes: w.attributes.push(a), ..w }
    } else {
        w
    }
}

/// The word after it was offered the attributes that parts `1` to `n` of an
/// expression name, in order; the first name that cannot be resolved is the
/// error.
pub open spec fn attributed_upto(
    w: WordView,
    parts: Seq<Seq<char>>,
    attributes: Seq<AttrEntry>,
    n: nat,
) -> Result<WordView, ErrorView>
    decreases n,
{
    if n == 0 {
        Ok(w)
    } else {
        match attributed_upto(w, parts, attributes, (n - 1) as nat) {
            Err(e) => Err(e),
            Ok(prev) => match attr_found(parts[n as int], attributes) {
                Err(e) => Err(e),
                Ok(a) => Ok(with_attr(prev, a)),
            },
        }
    }
}

/// The word that an expression `Lemma+ATTR+ATTR...` asks for.
pub open spec fn word_built(expr: Seq<char>, lang: LanguageView) -> Result<WordView, ErrorView> {
    let parts = pieces(expr, seq!['+']);
    match word_found(parts[0], lang.vocab) {
        Err(e) => Err(e),
        Ok(w) => attributed_upto(w, parts, lang.attributes, (parts.len() - 1) as nat),
    }
}

/// The spelling of an inflected form, its pronunciation, and the trace of
/// both where one is asked for. The pronunciation is derived from the
/// spelling, without multigraphs.
pub open spec fn forms_of(inflection: Seq<char>, lang: LanguageView, verbose: bool) -> Result<
    (Seq<char>, Seq<char>, Seq<Seq<char>>),
    ErrorView,
> {
    match glossed(inflection, lang.sc, lang.cats, lang.multigraphs) {
        Err(e) => Err(e),
        Ok(orthographic) => match glossed(
            orthographic,
            lang.phonetic,
            lang.cats,
            Seq::<Seq<char>>::empty(),
        ) {
            Err(e) => Err(e),
            Ok(phonetic) => Ok(
                (
                    orthographic,
                    phonetic,
                    gloss_trace(inflection, lang.sc, lang.cats, lang.multigraphs, verbose)
                        + gloss_trace(
                        orthographic,
                        lang.phonetic,
                        lang.cats,
                        Seq::<Seq<char>>::empty(),
                        verbose,
                    ),
                ),
            ),
        },
    }
}

/// The column of the gloss table for one word.
pub open spec fn column(w: WordView, lang: LanguageView, verbose: bool) -> Result<
    ColumnView,
    ErrorView,
> {
    match forms_of(inflected(w), lang, verbose) {
        Err(e) => Err(e),
        Ok((orthographic, phonetic, trace)) => Ok(
            ColumnView { inflection: inflected(w), orthographic, phonetic, gloss: gloss_line(w), trace },
        ),
    }
}

/// The first position from `from` on whose expression gives no word, or the
/// list's length.
pub open spec fn first_unbuilt(exprs: Seq<Seq<char>>, lang: LanguageView, from: int) -> int
    decreases exprs.len() - from,
{
    if from < 0 || from >= exprs.len() {
        exprs.len() as int
    } else if word_built(exprs[from], lang) is Err {
        from
    } else {
        first_unbuilt(exprs, lang, from + 1)
    }
}

/// The first position from `from` on whose word gives no column, or the
/// list's length.
pub open spec fn first_uncolumned(
    words: Seq<WordView>,
    lang: LanguageView,
    verbose: bool,
    from: int,
) -> int
    decreases words.len() - from,
{
    if from < 0 || from >= words.len() {
        words.len() as int
    } else if column(words[from], lang, verbose) is Err {
        from
    } else {
        first_uncolumned(words, lang, verbose, from + 1)
    }
}

/// The words that a list of expressions asks for.
pub open spec fn words_built(exprs: Seq<Seq<char>>, lang: LanguageView) -> Seq<WordView> {
    Seq::new(exprs.len(), |i: int| word_built(exprs[i], lang)->Ok_0)
}

/// The gloss table for a list of expressions: every word is looked up first,
/// then every column is made. The first fault on the way is the error.
pub open spec fn gloss_table(exprs: Seq<Seq<char>>, lang: LanguageView, verbose: bool) -> Result<
    Seq<ColumnView>,
    ErrorView,
> {
    let unbuilt = first_unbuilt(exprs, lang, 0);
    let words = words_built(exprs, lang);
    let uncolumned = first_uncolumned(words, lang, verbose, 0);
    if unbuilt < exprs.len() {
        Err(word_built(exprs[unbuilt], lang)->Err_0)
    } else if uncolumned < words.len() {
        Err(column(words[uncolumned], lang, verbose)->Err_0)
    } else {
        Ok(Seq::new(exprs.len(), |i: int| column(words[i], lang, verbose)->Ok_0))
    }
}

/// Looks up the word that an expression `Lemma+ATTR+ATTR...` asks for and
/// offers it each attribute in turn.
pub fn build_word(expr: &str, lang: &Language) -> (out: Result<Word<Attribute>, GlossError>)
    ensures
        match out {
            Ok(w) => word_built(expr@, lang@) == Ok::<WordView, ErrorView>(w@),
            Err(e) => word_built(expr@, lang@) == Err::<WordView, ErrorView>(e@),
        },
{
    proof {
        reveal_strlit("+");
        assert("+"@ =~= seq!['+']);
        lemma_pieces_nonempty(expr@, seq!['+'], 0);
    }
    let parts = split(expr, "+");
    let ghost names = spellings(parts@);
    let ghost start = word_found(names[0], lang@.vocab);
    let mut w = match get_word(&parts[0], &lang.vocab) {
        Err(e) => {
            return Err(e);
        },
        Ok(w) => w,
    };
    let mut i: usize = 1;
    while i < parts.len()
        invariant
            1 <= i <= parts@.len(),
            names == spellings(parts@),
            names == pieces(expr@, seq!['+']),
            start == word_found(names[0], lang@.vocab),
            start is Ok,
            attributed_upto(start->Ok_0, names, lang@.attributes, (i - 1) as nat) == Ok::<
                WordView,
                ErrorView,
            >(w@),
        decreases parts@.len() - i,
    {
        assert(names[i as int] == parts@[i as int]@);
        let a = match get_attr(parts[i].clone(), &lang.attributes) {
            Err(e) => {
                proof {
                    assert(attributed_upto(start->Ok_0, names, lang@.attributes, i as nat) == Err::<
                        WordView,
                        ErrorView,
                    >(e@));
                    lemma_attributed_error(
                        start->Ok_0,
                        names,
                        lang@.attributes,
                        i as nat,
                        (parts@.len() - 1) as nat,
                    );
                }
                return Err(e);
            },
            Ok(a) => a,
        };
        let ghost before = w@;
        w = add_attr(w, a);
        proof {
            assert(w@ == with_attr(before, a@)) by {
                if a@.affects.contains(before.class) {
                    assert(w@.attributes =~= before.attributes.push(a@));
                } else {
                    assert(w@.attributes =~= before.attributes);
                }
            }
        }
        i += 1;
    }
    Ok(w)
}

/// Once an attribute cannot be resolved, the error stays.
pub proof fn lemma_attributed_error(
    w: WordView,
    names: Seq<Seq<char>>,
    attributes: Seq<AttrEntry>,
    n: nat,
    m: nat,
)
    requires
        n <= m,
        attributed_upto(w, names, attributes, n) is Err,
    ensures
        attributed_upto(w, names, attributes, m) == attributed_upto(w, names, attributes, n),
    decreases m,
{
    if n < m {
        lemma_attributed_error(w, names, attributes, n, (m - 1) as nat);
    }
}

/// The spelling and the pronunciation of an inflected form.
pub fn build_forms(inflection: &String, lang: &Language, verbose: bool) -> (out: Result<
    Forms,
    GlossError,
>)
    ensures
        match out {
            Ok(forms) => forms_of(inflection@, lang@, verbose) == Ok::<
                (Seq<char>, Seq<char>, Seq<Seq<char>>),
                ErrorView,
            >((forms.orthographic@, forms.phonetic@, spellings(forms.trace@))),
            Err(e) => forms_of(inflection@, lang@, verbose) == Err::<
                (Seq<char>, Seq<char>, Seq<Seq<char>>),
                ErrorView,
            >(e@),
        },
{
    let spelt = match to_orthography(
        inflection.clone(),
        &lang.sc,
        &lang.cats,
        &lang.multigraphs,
        verbose,
    ) {
        Err(e) => {
            return Err(e);
        },
        Ok(traced) => traced,
    };
    let none: Vec<String> = Vec::new();
    proof {
        assert(spellings(none@) =~= Seq::<Seq<char>>::empty());
    }
    match to_orthography(spelt.text.clone(), &lang.phonetic, &lang.cats, &none, verbose) {
        Err(e) => Err(e),
        Ok(spoken) => {
            let mut trace = spelt.trace;
            let mut more = spoken.trace;
            let ghost first = spellings(trace@);
            let ghost second = spellings(more@);
            trace.append(&mut more);
            proof {
                assert(spellings(trace@) =~= first + second);
            }
            Ok(Forms { orthographic: spelt.text, phonetic: spoken.text, trace })
        },
    }
}

/// Makes the gloss table for a list of expressions, each of the form
/// `Lemma+ATTR+ATTR...`.
pub fn get_gloss_info(toks: &Vec<String>, lang: &Language, verbose: bool) -> (out: Result<
    GlossTable,
    GlossError,
>)
    ensures
        match out {
            Ok(table) => table.well_formed() && gloss_table(spellings(toks@), lang@, verbose)
                == Ok::<Seq<ColumnView>, ErrorView>(table.columns()),
            Err(e) => gloss_table(spellings(toks@), lang@, verbose) == Err::<
                Seq<ColumnView>,
                ErrorView,
            >(e@),
        },
{
    let ghost exprs = spellings(toks@);
    let mut ws: Vec<Word<Attribute>> = Vec::new();
    let mut i: usize = 0;
    while i < toks.len()
        invariant
            i <= toks@.len(),
            exprs == spellings(toks@),
            ws@.len() == i,
            first_unbuilt(exprs, lang@, 0) == first_unbuilt(exprs, lang@, i as int),
            forall|j: int|
                0 <= j < i ==> word_built(exprs[j], lang@) == Ok::<WordView, ErrorView>(
                    (#[trigger] ws@[j])@,
                ),
        decreases toks@.len() - i,
    {
        assert(exprs[i as int] == toks@[i as int]@);
        match build_word(toks[i].as_str(), lang) {
            Err(e) => {
                return Err(e);
            },
            Ok(w) => {
                ws.push(w);
            },
        }
        i += 1;
    }
    let ghost words = words_built(exprs, lang@);
    let mut inflections: Vec<String> = Vec::new();
    let mut orthographic: Vec<String> = Vec::new();
    let mut phonetic: Vec<String> = Vec::new();
    let mut glosses: Vec<String> = Vec::new();
    let mut traces: Vec<Vec<String>> = Vec::new();
    let mut k: usize = 0;
    while k < ws.len()
        invariant
            k <= ws@.len(),
            exprs == spellings(toks@),
            ws@.len() == exprs.len(),
            words == words_built(exprs, lang@),
            first_unbuilt(exprs, lang@, 0) == exprs.len(),
            forall|j: int| 0 <= j < ws@.len() ==> words[j] == (#[trigger] ws@[j])@,
            first_uncolumned(words, lang@, verbose, 0) == first_uncolumned(
                words,
                lang@,
                verbose,
                k as int,
            ),
            traces@.len() == k,
            inflections@.len() == k,
            orthographic@.len() == k,
            phonetic@.len() == k,
            glosses@.len() == k,
            forall|j: int|
                0 <= j < k ==> column(words[j], lang@, verbose) == Ok::<ColumnView, ErrorView>(
                    ColumnView {
                        inflection: (#[trigger] inflections@[j])@,
                        orthographic: orthographic@[j]@,
                        phonetic: phonetic@[j]@,
                        gloss: glosses@[j]@,
                        trace: spellings(traces@[j]@),
                    },
                ),
        decreases ws@.len() - k,
    {
        let w = &ws[k];
        assert(words[k as int] == w@);
        let inflection = inflect(w);
        match build_forms(&inflection, lang, verbose) {
            Err(e) => {
                proof {
                    assert(column(words[k as int], lang@, verbose) == Err::<ColumnView, ErrorView>(
                        e@,
                    ));
                    assert(first_uncolumned(words, lang@, verbose, k as int) == k);
                }
                return Err(e);
            },
            Ok(forms) => {
                inflections.push(inflection);
                orthographic.push(forms.orthographic);
                phonetic.push(forms.phonetic);
                traces.push(forms.trace);
                glosses.push(gloss(w));
            },
        }
        k += 1;
    }
    let len = glosses.len();
    let table = GlossTable { inflections, orthographic, phonetic, glosses, traces, len };
    proof {
        assert(table.columns() =~= Seq::new(
            exprs.len(),
            |i: int| column(words[i], lang@, verbose)->Ok_0,
        ));
    }
    Ok(table)
}

} // verus!
