//! The lexicon: words, their classes, and the attributes that inflect them.

use crate::error::{ErrorView, GlossError};
use crate::text::same_text;
use vstd::prelude::*;
use vstd::string::*;

verus! {

/// The four word classes every language has: noun, verb, modifier, particle.
#[derive(Hash, PartialEq, Eq, Structural, Clone, Copy, Debug)]
pub enum DefaultWordclass {
    N,
    V,
    M,
    P,
}

/// A word class: one of the four, or one that a language adds, by number.
#[derive(Hash, PartialEq, Eq, Structural, Clone, Copy, Debug)]
pub enum Wordclass {
    Default(DefaultWordclass),
    Custom(u32),
}

impl Wordclass {
    /// The place of the class in the order in which a set of classes is
    /// kept: `N`, `V`, `M`, `P`, then the added classes by number.
    pub open spec fn rank(self) -> int {
        match self {
            Wordclass::Default(DefaultWordclass::N) => 0,
            Wordclass::Default(DefaultWordclass::V) => 1,
            Wordclass::Default(DefaultWordclass::M) => 2,
            Wordclass::Default(DefaultWordclass::P) => 3,
            Wordclass::Custom(n) => 4 + n,
        }
    }

    /// The place of the class in the order in which a set of classes is
    /// kept.
    pub fn rank_of(&self) -> (r: u64)
        ensures
            r == self.rank(),
    {
        match self {
            Wordclass::Default(DefaultWordclass::N) => 0,
            Wordclass::Default(DefaultWordclass::V) => 1,
            Wordclass::Default(DefaultWordclass::M) => 2,
            Wordclass::Default(DefaultWordclass::P) => 3,
            Wordclass::Custom(n) => 4 + (*n as u64),
        }
    }
}

/// The classes stand in ascending order of rank, so none stands twice and
/// two lists of the same classes are the same list.
pub open spec fn ascending(classes: Seq<Wordclass>) -> bool {
    forall|i: int, j: int| 0 <= i < j < classes.len() ==> classes[i].rank() < classes[j].rank()
}

/// Where a class of rank `rank` belongs in `classes`: behind the last class
/// of lower rank.
pub open spec fn place_of(classes: Seq<Wordclass>, rank: int) -> int
    decreases classes.len(),
{
    if classes.len() == 0 {
        0
    } else if classes.last().rank() < rank {
        classes.len() as int
    } else {
        place_of(classes.drop_last(), rank)
    }
}

/// `classes` with `c` in its place; unchanged where `c` stands there
/// already.
pub open spec fn with_class(classes: Seq<Wordclass>, c: Wordclass) -> Seq<Wordclass> {
    let at = place_of(classes, c.rank());
    if at < classes.len() && classes[at] == c {
        classes
    } else {
        classes.insert(at, c)
    }
}

/// Where an attribute's form goes: `Less` before the word, `Greater` behind
/// it, `Equal` nowhere.
#[derive(PartialEq, Eq, Structural, Clone, Copy, Debug)]
pub enum Placement {
    Less,
    Equal,
    Greater,
}

impl Placement {
    /// The placement that a signed position stands for.
    pub open spec fn of_spec(pos: i64) -> Placement {
        if pos < 0 {
            Placement::Less
        } else if pos == 0 {
            Placement::Equal
        } else {
            Placement::Greater
        }
    }

    /// The placement that a signed position stands for: `Less` for a
    /// negative one, `Greater` for a positive one, `Equal` for zero.
    #[verifier::when_used_as_spec(of_spec)]
    pub fn of(pos: i64) -> (out: Placement)
        ensures
            out == Placement::of_spec(pos),
    {
        if pos < 0 {
            Placement::Less
        } else if pos == 0 {
            Placement::Equal
        } else {
            Placement::Greater
        }
    }
}

/// An attribute of a word: its name in the gloss, its form in the word, where
/// the form goes, and the set of classes of word that can take it, kept in
/// ascending order of rank.
#[derive(PartialEq, Eq, Clone, Debug)]
pub struct Attribute {
    pub name: String,
    pub form: String,
    pub place: Placement,
    pub affects: Vec<Wordclass>,
}

/// An attribute as plain values.
pub struct AttributeView {
    pub name: Seq<char>,
    pub form: Seq<char>,
    pub place: Placement,
    pub affects: Seq<Wordclass>,
}

impl AttributeView {
    /// The classes are kept as a set: in ascending order, none twice.
    pub open spec fn well_formed(self) -> bool {
        ascending(self.affects)
    }
}

impl View for Attribute {
    type V = AttributeView;

    open spec fn view(&self) -> AttributeView {
        AttributeView {
            name: self.name@,
            form: self.form@,
            place: self.place,
            affects: self.affects@,
        }
    }
}

impl Attribute {
    /// The attribute written out for a reader: its name.
    pub fn to_text(&self) -> (out: String)
        ensures
            out@ == self@.name,
    {
        self.name.clone()
    }
}

/// A list of attributes as plain values.
pub open spec fn attribute_views(attrs: Seq<Attribute>) -> Seq<AttributeView> {
    Seq::new(attrs.len(), |i: int| attrs[i]@)
}

/// What can be asked whether it applies to a class of word.
pub trait Affect {
    /// Whether this applies to words of class `c`.
    spec fn affects_class(&self, c: Wordclass) -> bool;

    /// Whether this applies to words of class `c`.
    fn can_affect(&self, c: Wordclass) -> (yes: bool)
        ensures
            yes == self.affects_class(c),
    ;
}

impl Affect for Attribute {
    open spec fn affects_class(&self, c: Wordclass) -> bool {
        self.affects@.contains(c)
    }

    fn can_affect(&self, c: Wordclass) -> (yes: bool) {
        let mut i: usize = 0;
        while i < self.affects.len()
            invariant
                i <= self.affects@.len(),
                forall|j: int| 0 <= j < i ==> self.affects@[j] != c,
            decreases self.affects@.len() - i,
        {
            if self.affects[i] == c {
                return true;
            }
            i += 1;
        }
        false
    }
}

/// A word of the lexicon with the attributes it has taken so far. No
/// subclasses are told apart yet.
#[derive(Hash, PartialEq, Eq, Debug)]
pub struct Word<Attr> {
    pub lemma: String,
    pub gloss: String,
    pub class: Wordclass,
    pub subclass: (),
    pub attributes: Vec<Attr>,
}

impl<Attr: Clone> Clone for Word<Attr> {
    fn clone(&self) -> (out: Self)
        ensures
            out.lemma == self.lemma,
            out.gloss == self.gloss,
            out.class == self.class,
            out.attributes@.len() == self.attributes@.len(),
    {
        Word {
            lemma: self.lemma.clone(),
            gloss: self.gloss.clone(),
            class: self.class,
            subclass: (),
            attributes: self.attributes.clone(),
        }
    }
}

/// One entry of a language's vocabulary, as it was read: a field is `None`
/// where the description lacks it or gives it another type than text.
pub struct WordEntry {
    pub lemma: String,
    pub gloss: Option<String>,
    pub class: Option<String>,
}

/// One entry of a language's attributes, as it was read: a field is `None`
/// where the description lacks it or gives it another type than expected,
/// and so is an item of `affects` that is no text.
pub struct AttrEntry {
    pub name: String,
    pub form: Option<String>,
    pub pos: Option<i64>,
    pub affects: Option<Vec<Option<String>>>,
}

/// The class that a one-letter name stands for.
pub open spec fn class_named(name: Seq<char>) -> Option<Wordclass> {
    if name == seq!['N'] {
        Some(Wordclass::Default(DefaultWordclass::N))
    } else if name == seq!['V'] {
        Some(Wordclass::Default(DefaultWordclass::V))
    } else if name == seq!['M'] {
        Some(Wordclass::Default(DefaultWordclass::M))
    } else if name == seq!['P'] {
        Some(Wordclass::Default(DefaultWordclass::P))
    } else {
        None
    }
}

/// The class that an optional name stands for.
pub open spec fn class_of_item(item: Option<String>) -> Option<Wordclass> {
    match item {
        Some(name) => class_named(name@),
        None => None,
    }
}

/// The text of an optional name; empty where there is none.
pub open spec fn text_of_item(item: Option<String>) -> Seq<char> {
    match item {
        Some(name) => name@,
        None => Seq::empty(),
    }
}

/// The first position from `from` on whose item names no class, or the
/// list's length.
pub open spec fn first_unknown(list: Seq<Option<String>>, from: int) -> int
    decreases list.len() - from,
{
    if from < 0 || from >= list.len() {
        list.len() as int
    } else if class_of_item(list[from]) is None {
        from
    } else {
        first_unknown(list, from + 1)
    }
}

/// The set of classes that the first `n` items of a list name.
pub open spec fn classes_named_upto(list: Seq<Option<String>>, n: nat) -> Seq<Wordclass>
    decreases n,
{
    if n == 0 {
        Seq::empty()
    } else {
        with_class(classes_named_upto(list, (n - 1) as nat), class_of_item(list[n - 1])->0)
    }
}

/// The set of classes that the items of a list name, each once, in ascending
/// order.
pub open spec fn classes_named(list: Seq<Option<String>>) -> Seq<Wordclass> {
    classes_named_upto(list, list.len())
}

/// The place lies in the list; what stands from it on has at least the rank,
/// and what stands just before it has less.
pub proof fn lemma_place_of(classes: Seq<Wordclass>, rank: int)
    ensures
        0 <= place_of(classes, rank) <= classes.len(),
        forall|k: int| place_of(classes, rank) <= k < classes.len() ==> classes[k].rank() >= rank,
        place_of(classes, rank) > 0 ==> classes[place_of(classes, rank) - 1].rank() < rank,
    decreases classes.len(),
{
    if classes.len() > 0 && classes.last().rank() >= rank {
        let rest = classes.drop_last();
        lemma_place_of(rest, rank);
        assert forall|k: int| place_of(classes, rank) <= k < classes.len() implies classes[k].rank()
            >= rank by {
            if k < rest.len() {
                assert(classes[k] == rest[k]);
            }
        }
        if place_of(classes, rank) > 0 {
            assert(classes[place_of(classes, rank) - 1] == rest[place_of(rest, rank) - 1]);
        }
    }
}

/// Taking a class into a set keeps the set in order, and the set then holds
/// that class and what it held before.
pub proof fn lemma_with_class(classes: Seq<Wordclass>, c: Wordclass)
    requires
        ascending(classes),
    ensures
        ascending(with_class(classes, c)),
        forall|x: Wordclass|
            with_class(classes, c).contains(x) <==> (classes.contains(x) || x == c),
{
    lemma_place_of(classes, c.rank());
    let at = place_of(classes, c.rank());
    let out = with_class(classes, c);
    if at < classes.len() && classes[at] == c {
    } else {
        assert forall|i: int, j: int| 0 <= i < j < out.len() implies out[i].rank()
            < out[j].rank() by {
            if j < at {
                assert(out[i] == classes[i] && out[j] == classes[j]);
            } else if j == at {
                assert(out[i] == classes[i]);
                assert(classes[i].rank() <= classes[at - 1].rank());
            } else if i == at {
                assert(out[j] == classes[j - 1]);
                assert(classes[j - 1].rank() >= classes[at].rank());
                assert(classes[at].rank() >= c.rank());
                assert(classes[at] != c);
            } else if i < at {
                assert(out[i] == classes[i] && out[j] == classes[j - 1]);
                assert(classes[i].rank() < c.rank() <= classes[j - 1].rank()) by {
                    assert(classes[i].rank() <= classes[at - 1].rank());
                }
            } else {
                assert(out[i] == classes[i - 1] && out[j] == classes[j - 1]);
            }
        }
        assert forall|x: Wordclass| out.contains(x) <==> (classes.contains(x) || x == c) by {
            if out.contains(x) {
                let k = choose|k: int| 0 <= k < out.len() && out[k] == x;
                if k < at {
                    assert(classes[k] == x);
                } else if k > at {
                    assert(classes[k - 1] == x);
                }
            }
            if classes.contains(x) {
                let k = choose|k: int| 0 <= k < classes.len() && classes[k] == x;
                if k < at {
                    assert(out[k] == x);
                } else {
                    assert(out[k + 1] == x);
                }
            }
            if x == c {
                assert(out[at] == x);
            }
        }
    }
}

/// The classes that a list names are kept as a set: in ascending order, and
/// a class is among them exactly if some item of the list names it.
pub proof fn classes_named_is_a_set(list: Seq<Option<String>>, n: nat)
    requires
        n <= list.len(),
    ensures
        ascending(classes_named_upto(list, n)),
        forall|x: Wordclass|
            classes_named_upto(list, n).contains(x) <==> exists|i: int|
                0 <= i < n && x == class_of_item(#[trigger] list[i])->0,
    decreases n,
{
    if n > 0 {
        let prev = classes_named_upto(list, (n - 1) as nat);
        let c = class_of_item(list[n - 1])->0;
        classes_named_is_a_set(list, (n - 1) as nat);
        lemma_with_class(prev, c);
        assert forall|x: Wordclass|
            classes_named_upto(list, n).contains(x) <==> exists|i: int|
                0 <= i < n && x == class_of_item(#[trigger] list[i])->0 by {
            if prev.contains(x) {
                let i = choose|i: int| 0 <= i < n - 1 && x == class_of_item(#[trigger] list[i])->0;
                assert(0 <= i < n && x == class_of_item(list[i])->0);
            }
            if x == c {
                assert(x == class_of_item(list[n - 1])->0);
            }
            if exists|i: int| 0 <= i < n && x == class_of_item(#[trigger] list[i])->0 {
                let i = choose|i: int| 0 <= i < n && x == class_of_item(#[trigger] list[i])->0;
                if i < n - 1 {
                    assert(prev.contains(x));
                }
            }
        }
    } else {
        assert forall|x: Wordclass| !classes_named_upto(list, 0).contains(x) by {}
    }
}

/// Two sets of classes that hold the same classes are the same list.
pub proof fn same_classes_same_list(a: Seq<Wordclass>, b: Seq<Wordclass>)
    requires
        ascending(a),
        ascending(b),
        forall|x: Wordclass| a.contains(x) <==> b.contains(x),
    ensures
        a == b,
    decreases a.len(),
{
    if a.len() == 0 {
        if b.len() > 0 {
            assert(b.contains(b[0]));
        }
        assert(a =~= b);
    } else {
        assert(a.contains(a.last()));
        let k = choose|k: int| 0 <= k < b.len() && b[k] == a.last();
        assert(b.contains(b.last()));
        let m = choose|m: int| 0 <= m < a.len() && a[m] == b.last();
        assert(k == b.len() - 1);
        let ra = a.drop_last();
        let rb = b.drop_last();
        assert forall|x: Wordclass| ra.contains(x) <==> rb.contains(x) by {
            if ra.contains(x) {
                let i = choose|i: int| 0 <= i < ra.len() && ra[i] == x;
                assert(a[i] == x);
                assert(a.contains(x));
                let j = choose|j: int| 0 <= j < b.len() && b[j] == x;
                assert(x.rank() < a.last().rank());
                assert(rb[j] == x);
            }
            if rb.contains(x) {
                let j = choose|j: int| 0 <= j < rb.len() && rb[j] == x;
                assert(b[j] == x);
                assert(b.contains(x));
                let i = choose|i: int| 0 <= i < a.len() && a[i] == x;
                assert(x.rank() < b.last().rank());
                assert(ra[i] == x);
            }
        }
        same_classes_same_list(ra, rb);
        assert(a =~= ra.push(a.last()));
        assert(b =~= rb.push(b.last()));
    }
}

/// The first position from `from` on whose key is `key`, or the list's
/// length.
pub open spec fn first_keyed(keys: Seq<Seq<char>>, key: Seq<char>, from: int) -> int
    decreases keys.len() - from,
{
    if from < 0 || from >= keys.len() {
        keys.len() as int
    } else if keys[from] == key {
        from
    } else {
        first_keyed(keys, key, from + 1)
    }
}

/// The lemmas of a vocabulary.
pub open spec fn lemmas(vocab: Seq<WordEntry>) -> Seq<Seq<char>> {
    Seq::new(vocab.len(), |i: int| vocab[i].lemma@)
}

/// The names of a list of attribute entries.
pub open spec fn attr_names(attributes: Seq<AttrEntry>) -> Seq<Seq<char>> {
    Seq::new(attributes.len(), |i: int| attributes[i].name@)
}

/// A word as plain values.
pub struct WordView {
    pub lemma: Seq<char>,
    pub gloss: Seq<char>,
    pub class: Wordclass,
    pub attributes: Seq<AttributeView>,
}

impl View for Word<Attribute> {
    type V = WordView;

    open spec fn view(&self) -> WordView {
        WordView {
            lemma: self.lemma@,
            gloss: self.gloss@,
            class: self.class,
            attributes: attribute_views(self.attributes@),
        }
    }
}

/// The word that the vocabulary holds under `lemma`, without attributes. An
/// entry without a gloss is a fault of the description; one whose class is
/// none of `N`, `V`, `M`, `P` names an unknown class.
pub open spec fn word_found(lemma: Seq<char>, vocab: Seq<WordEntry>) -> Result<WordView, ErrorView> {
    let at = first_keyed(lemmas(vocab), lemma, 0);
    if at >= vocab.len() {
        Err(ErrorView::UnknownWord(lemma))
    } else if vocab[at].gloss is None {
        Err(ErrorView::Schema(lemma))
    } else if class_of_item(vocab[at].class) is None {
        Err(ErrorView::UnknownCategoryOrClass(text_of_item(vocab[at].class)))
    } else {
        Ok(
            WordView {
                lemma,
                gloss: vocab[at].gloss->0@,
                class: class_of_item(vocab[at].class)->0,
                attributes: Seq::empty(),
            },
        )
    }
}

/// The attribute that applies to every one of the four classes and has no
/// form.
pub open spec fn null_attr_view(name: Seq<char>) -> AttributeView {
    AttributeView {
        name,
        form: Seq::empty(),
        place: Placement::Equal,
        affects: seq![
            Wordclass::Default(DefaultWordclass::N),
            Wordclass::Default(DefaultWordclass::V),
            Wordclass::Default(DefaultWordclass::M),
            Wordclass::Default(DefaultWordclass::P),
        ],
    }
}

/// The attribute that the description holds under `name`; the null attribute
/// where it holds none. An entry without form, position or list of classes is
/// a fault of the description; an item of the list that is none of `N`, `V`,
/// `M`, `P` names an unknown class.
pub open spec fn attr_found(name: Seq<char>, attributes: Seq<AttrEntry>) -> Result<
    AttributeView,
    ErrorView,
> {
    let at = first_keyed(attr_names(attributes), name, 0);
    if at >= attributes.len() {
        Ok(null_attr_view(name))
    } else {
        let entry = attributes[at];
        if entry.form is None || entry.pos is None || entry.affects is None {
            Err(ErrorView::Schema(name))
        } else {
            let list = entry.affects->0@;
            if first_unknown(list, 0) < list.len() {
                Err(ErrorView::UnknownCategoryOrClass(text_of_item(list[first_unknown(list, 0)])))
            } else {
                Ok(
                    AttributeView {
                        name,
                        form: entry.form->0@,
                        place: Placement::of_spec(entry.pos->0),
                        affects: classes_named(list),
                    },
                )
            }
        }
    }
}

/// The glosses of a vocabulary; empty where an entry has none.
pub open spec fn glosses(vocab: Seq<WordEntry>) -> Seq<Seq<char>> {
    Seq::new(vocab.len(), |i: int| text_of_item(vocab[i].gloss))
}

/// Entry `at` cannot go into a table from gloss to word: it has no gloss, or
/// an earlier entry has the same.
pub open spec fn gloss_unusable(vocab: Seq<WordEntry>, at: int) -> bool {
    vocab[at].gloss is None || first_keyed(glosses(vocab), glosses(vocab)[at], 0) < at
}

/// The first position from `from` on whose entry cannot go into a table from
/// gloss to word, or the vocabulary's length.
pub open spec fn first_unusable_gloss(vocab: Seq<WordEntry>, from: int) -> int
    decreases vocab.len() - from,
{
    if from < 0 || from >= vocab.len() {
        vocab.len() as int
    } else if gloss_unusable(vocab, from) {
        from
    } else {
        first_unusable_gloss(vocab, from + 1)
    }
}

/// The lemma of the word whose gloss is `term`. The whole vocabulary must be
/// usable as a table from gloss to word, whatever is asked for.
pub open spec fn looked_up(term: Seq<char>, vocab: Seq<WordEntry>) -> Result<Seq<char>, ErrorView> {
    let bad = first_unusable_gloss(vocab, 0);
    let at = first_keyed(glosses(vocab), term, 0);
    if bad < vocab.len() {
        Err(ErrorView::Schema(vocab[bad].lemma@))
    } else if at >= vocab.len() {
        Err(ErrorView::UnknownWord(term))
    } else {
        Ok(vocab[at].lemma@)
    }
}

/// The word with the first `n` attributes' forms attached: a form placed
/// `Greater` goes behind what is there, one placed `Less` before it, each
/// joined on with a hyphen.
pub open spec fn inflected_upto(root: Seq<char>, attrs: Seq<AttributeView>, n: nat) -> Seq<char>
    decreases n,
{
    if n == 0 {
        root
    } else {
        let out = inflected_upto(root, attrs, (n - 1) as nat);
        match attrs[n - 1].place {
            Placement::Greater => out + seq!['-'] + attrs[n - 1].form,
            Placement::Less => attrs[n - 1].form + seq!['-'] + out,
            Placement::Equal => out,
        }
    }
}

/// The word with all its attributes' forms attached.
pub open spec fn inflected(w: WordView) -> Seq<char> {
    inflected_upto(w.lemma, w.attributes, w.attributes.len())
}

/// The gloss with the first `n` attributes' names attached, as the forms
/// are in the word; the name of an attribute placed `Equal` goes in front,
/// in square brackets.
pub open spec fn gloss_upto(gloss: Seq<char>, attrs: Seq<AttributeView>, n: nat) -> Seq<char>
    decreases n,
{
    if n == 0 {
        gloss
    } else {
        let out = gloss_upto(gloss, attrs, (n - 1) as nat);
        match attrs[n - 1].place {
            Placement::Greater => out + seq!['-'] + attrs[n - 1].name,
            Placement::Less => attrs[n - 1].name + seq!['-'] + out,
            Placement::Equal => seq!['['] + attrs[n - 1].name + seq![']'] + out,
        }
    }
}

/// The gloss with all the attributes' names attached.
pub open spec fn gloss_line(w: WordView) -> Seq<char> {
    gloss_upto(w.gloss, w.attributes, w.attributes.len())
}

/// The class that a one-letter name stands for.
pub fn class_of(name: &str) -> (out: Option<Wordclass>)
    ensures
        out == class_named(name@),
{
    if name.unicode_len() != 1 {
        return None;
    }
    let c = name.get_char(0);
    proof {
        assert(name@ =~= seq![c]);
        assert(seq!['N'][0] == 'N' && seq!['V'][0] == 'V' && seq!['M'][0] == 'M' && seq!['P'][0]
            == 'P');
    }
    if c == 'N' {
        Some(Wordclass::Default(DefaultWordclass::N))
    } else if c == 'V' {
        Some(Wordclass::Default(DefaultWordclass::V))
    } else if c == 'M' {
        Some(Wordclass::Default(DefaultWordclass::M))
    } else if c == 'P' {
        Some(Wordclass::Default(DefaultWordclass::P))
    } else {
        None
    }
}

/// Gives the word one more attribute, if the attribute applies to words of
/// its class; else the word stays as it is.
pub fn add_attr<Attr: Affect>(w: Word<Attr>, a: Attr) -> (out: Word<Attr>)
    ensures
        out.lemma == w.lemma,
        out.gloss == w.gloss,
        out.class == w.class,
        out.attributes@ == if a.affects_class(w.class) {
            w.attributes@.push(a)
        } else {
            w.attributes@
        },
{
    let Word { lemma, gloss, class, subclass, mut attributes } = w;
    if a.can_affect(class) {
        attributes.push(a);
    }
    Word { lemma, gloss, class, subclass, attributes }
}

/// Where `key` stands among the lemmas of the vocabulary.
pub fn find_word(key: &str, vocab: &Vec<WordEntry>) -> (at: usize)
    ensures
        at == first_keyed(lemmas(vocab@), key@, 0),
        at <= vocab@.len(),
{
    let ghost keys = lemmas(vocab@);
    let mut i: usize = 0;
    while i < vocab.len()
        invariant
            i <= vocab@.len(),
            keys == lemmas(vocab@),
            first_keyed(keys, key@, 0) == first_keyed(keys, key@, i as int),
        decreases vocab@.len() - i,
    {
        if same_text(vocab[i].lemma.as_str(), key) {
            return i;
        }
        i += 1;
    }
    i
}

/// Where `key` stands among the names of the attribute entries.
pub fn find_attr(key: &str, attributes: &Vec<AttrEntry>) -> (at: usize)
    ensures
        at == first_keyed(attr_names(attributes@), key@, 0),
        at <= attributes@.len(),
{
    let ghost keys = attr_names(attributes@);
    let mut i: usize = 0;
    while i < attributes.len()
        invariant
            i <= attributes@.len(),
            keys == attr_names(attributes@),
            first_keyed(keys, key@, 0) == first_keyed(keys, key@, i as int),
        decreases attributes@.len() - i,
    {
        if same_text(attributes[i].name.as_str(), key) {
            return i;
        }
        i += 1;
    }
    i
}

/// Where `key` stands among the glosses of the vocabulary, looking at the
/// first `upto` entries only.
pub fn find_gloss(key: &str, vocab: &Vec<WordEntry>, upto: usize) -> (at: usize)
    requires
        upto <= vocab@.len(),
    ensures
        at <= upto,
        at < upto ==> at == first_keyed(glosses(vocab@), key@, 0),
        at == upto ==> first_keyed(glosses(vocab@), key@, 0) >= upto,
{
    let ghost keys = glosses(vocab@);
    let mut i: usize = 0;
    while i < upto
        invariant
            i <= upto,
            upto <= vocab@.len(),
            keys == glosses(vocab@),
            first_keyed(keys, key@, 0) == first_keyed(keys, key@, i as int),
        decreases upto - i,
    {
        let same = match &vocab[i].gloss {
            Some(g) => same_text(g.as_str(), key),
            None => key.is_empty(),
        };
        proof {
            assert(keys[i as int] == text_of_item(vocab@[i as int].gloss));
            if vocab@[i as int].gloss is None && key@.len() == 0 {
                assert(key@ =~= Seq::<char>::empty());
            }
        }
        if same {
            return i;
        }
        i += 1;
    }
    proof {
        lemma_first_keyed(keys, key@, upto as int);
    }
    upto
}

/// Looks up, by its gloss, the lemma of a word of the vocabulary.
pub fn naive_lookup(term: String, vocab: &Vec<WordEntry>) -> (out: Result<String, GlossError>)
    ensures
        match out {
            Ok(lemma) => looked_up(term@, vocab@) == Ok::<Seq<char>, ErrorView>(lemma@),
            Err(e) => looked_up(term@, vocab@) == Err::<Seq<char>, ErrorView>(e@),
        },
{
    let mut i: usize = 0;
    while i < vocab.len()
        invariant
            i <= vocab@.len(),
            first_unusable_gloss(vocab@, 0) == first_unusable_gloss(vocab@, i as int),
        decreases vocab@.len() - i,
    {
        let unusable = match &vocab[i].gloss {
            None => true,
            Some(g) => {
                assert(glosses(vocab@)[i as int] == g@);
                find_gloss(g.as_str(), vocab, i) < i
            },
        };
        if unusable {
            return Err(GlossError::Schema(vocab[i].lemma.clone()));
        }
        i += 1;
    }
    let at = find_gloss(term.as_str(), vocab, vocab.len());
    if at >= vocab.len() {
        return Err(GlossError::UnknownWord(term));
    }
    Ok(vocab[at].lemma.clone())
}

/// Looks a word up in the vocabulary.
pub fn get_word(s: &String, vocab: &Vec<WordEntry>) -> (out: Result<Word<Attribute>, GlossError>)
    ensures
        match out {
            Ok(w) => word_found(s@, vocab@) == Ok::<WordView, ErrorView>(w@),
            Err(e) => word_found(s@, vocab@) == Err::<WordView, ErrorView>(e@),
        },
{
    let at = find_word(s.as_str(), vocab);
    if at >= vocab.len() {
        return Err(GlossError::UnknownWord(s.clone()));
    }
    let entry = &vocab[at];
    let gloss = match &entry.gloss {
        None => {
            return Err(GlossError::Schema(s.clone()));
        },
        Some(g) => g.clone(),
    };
    let class = match &entry.class {
        None => {
            return Err(GlossError::UnknownCategoryOrClass(String::new()));
        },
        Some(name) => match class_of(name.as_str()) {
            None => {
                return Err(GlossError::UnknownCategoryOrClass(name.clone()));
            },
            Some(c) => c,
        },
    };
    let w = Word { lemma: s.clone(), gloss, class, subclass: (), attributes: Vec::new() };
    proof {
        assert(attribute_views(w.attributes@) =~= Seq::empty());
    }
    Ok(w)
}

/// Takes a class into a set of classes.
pub fn take_class(classes: Vec<Wordclass>, c: Wordclass) -> (out: Vec<Wordclass>)
    ensures
        out@ == with_class(classes@, c),
{
    let mut classes = classes;
    let ghost list = classes@;
    let rank = c.rank_of();
    let mut at: usize = classes.len();
    proof {
        assert(list.subrange(0, at as int) =~= list);
    }
    while at > 0 && classes[at - 1].rank_of() >= rank
        invariant
            at <= classes@.len(),
            list == classes@,
            rank == c.rank(),
            place_of(list, rank as int) == place_of(list.subrange(0, at as int), rank as int),
        decreases at,
    {
        proof {
            assert(list.subrange(0, at as int).drop_last() =~= list.subrange(0, at - 1));
        }
        at -= 1;
    }
    assert(place_of(list, rank as int) == at);
    if at < classes.len() && classes[at] == c {
        return classes;
    }
    classes.insert(at, c);
    classes
}

/// The set of classes that a list of names stands for, or the first item
/// that names none.
pub fn classes_of(list: &Vec<Option<String>>) -> (out: Result<Vec<Wordclass>, usize>)
    ensures
        match out {
            Ok(classes) => first_unknown(list@, 0) == list@.len() && classes@ == classes_named(
                list@,
            ),
            Err(at) => at < list@.len() && at == first_unknown(list@, 0),
        },
{
    let mut classes: Vec<Wordclass> = Vec::new();
    let mut i: usize = 0;
    while i < list.len()
        invariant
            i <= list@.len(),
            first_unknown(list@, 0) == first_unknown(list@, i as int),
            classes@ == classes_named_upto(list@, i as nat),
        decreases list@.len() - i,
    {
        let found = match &list[i] {
            None => None,
            Some(name) => class_of(name.as_str()),
        };
        match found {
            None => {
                return Err(i);
            },
            Some(c) => {
                classes = take_class(classes, c);
            },
        }
        i += 1;
    }
    Ok(classes)
}

/// Looks an attribute up in the description.
pub fn get_attr(name: String, attributes: &Vec<AttrEntry>) -> (out: Result<Attribute, GlossError>)
    ensures
        match out {
            Ok(a) => attr_found(name@, attributes@) == Ok::<AttributeView, ErrorView>(a@)
                && a@.well_formed(),
            Err(e) => attr_found(name@, attributes@) == Err::<AttributeView, ErrorView>(e@),
        },
{
    let at = find_attr(name.as_str(), attributes);
    if at >= attributes.len() {
        return Ok(null_attr(name));
    }
    let entry = &attributes[at];
    match (&entry.form, &entry.pos, &entry.affects) {
        (Some(form), Some(pos), Some(list)) => {
            proof {
                classes_named_is_a_set(list@, list@.len());
            }
            match classes_of(list) {
                Err(bad) => {
                    let culprit = match &list[bad] {
                        Some(text) => text.clone(),
                        None => String::new(),
                    };
                    Err(GlossError::UnknownCategoryOrClass(culprit))
                },
                Ok(affects) => Ok(
                    Attribute { name, form: form.clone(), place: Placement::of(*pos), affects },
                ),
            }
        },
        _ => Err(GlossError::Schema(name)),
    }
}

/// The attribute that applies to every one of the four classes and has no
/// form.
pub fn null_attr(name: String) -> (out: Attribute)
    ensures
        out@ == null_attr_view(name@),
        out@.well_formed(),
{
    let mut affects: Vec<Wordclass> = Vec::new();
    affects.push(Wordclass::Default(DefaultWordclass::N));
    affects.push(Wordclass::Default(DefaultWordclass::V));
    affects.push(Wordclass::Default(DefaultWordclass::M));
    affects.push(Wordclass::Default(DefaultWordclass::P));
    proof {
        assert(affects@ =~= null_attr_view(name@).affects);
    }
    Attribute { name, form: String::new(), place: Placement::Equal, affects }
}

/// The word with the forms of its attributes attached, in the order in which
/// it took them.
pub fn inflect(w: &Word<Attribute>) -> (out: String)
    ensures
        out@ == inflected(w@),
{
    let ghost attrs = attribute_views(w.attributes@);
    proof {
        reveal_strlit("-");
        assert("-"@ =~= seq!['-']);
    }
    let mut out = w.lemma.clone();
    let mut i: usize = 0;
    while i < w.attributes.len()
        invariant
            i <= w.attributes@.len(),
            attrs == attribute_views(w.attributes@),
            "-"@ == seq!['-'],
            out@ == inflected_upto(w.lemma@, attrs, i as nat),
        decreases w.attributes@.len() - i,
    {
        let attr = &w.attributes[i];
        assert(attrs[i as int] == attr@);
        match attr.place {
            Placement::Greater => {
                out.append("-");
                out.append(attr.form.as_str());
            },
            Placement::Less => {
                let mut front = attr.form.clone();
                front.append("-");
                front.append(out.as_str());
                out = front;
            },
            Placement::Equal => {},
        }
        i += 1;
    }
    out
}

/// The gloss of the word with the names of its attributes attached, in the
/// order in which it took them.
pub fn gloss(w: &Word<Attribute>) -> (out: String)
    ensures
        out@ == gloss_line(w@),
{
    let ghost attrs = attribute_views(w.attributes@);
    proof {
        reveal_strlit("-");
        reveal_strlit("[");
        reveal_strlit("]");
        assert("-"@ =~= seq!['-']);
        assert("["@ =~= seq!['[']);
        assert("]"@ =~= seq![']']);
    }
    let mut out = w.gloss.clone();
    let mut i: usize = 0;
    while i < w.attributes.len()
        invariant
            i <= w.attributes@.len(),
            attrs == attribute_views(w.attributes@),
            "-"@ == seq!['-'],
            "["@ == seq!['['],
            "]"@ == seq![']'],
            out@ == gloss_upto(w.gloss@, attrs, i as nat),
        decreases w.attributes@.len() - i,
    {
        let attr = &w.attributes[i];
        assert(attrs[i as int] == attr@);
        match attr.place {
            Placement::Greater => {
                out.append("-");
                out.append(attr.name.as_str());
            },
            Placement::Less => {
                let mut front = attr.name.clone();
                front.append("-");
                front.append(out.as_str());
                out = front;
            },
            Placement::Equal => {
                let mut front = String::from_str("[");
                front.append(attr.name.as_str());
                front.append("]");
                front.append(out.as_str());
                out = front;
            },
        }
        i += 1;
    }
    out
}

/// Two tables from a key to a word of the lexicon: `lang` from the lemma, for
/// the words of the language, and `txln` from the gloss, for finding a word
/// by what it means. Either may be absent. A table holds a key once.
pub struct LookupTable<'a> {
    pub lang: Option<Vec<(String, &'a Word<Attribute>)>>,
    pub txln: Option<Vec<(String, &'a Word<Attribute>)>>,
}

/// A table as plain values: each key with its word.
pub open spec fn table_view<'a>(table: Seq<(String, &'a Word<Attribute>)>) -> Seq<
    (Seq<char>, WordView),
> {
    Seq::new(table.len(), |i: int| (table[i].0@, table[i].1@))
}

/// An optional table as plain values; an absent one holds nothing.
pub open spec fn optional_table_view<'a>(
    table: Option<Vec<(String, &'a Word<Attribute>)>>,
) -> Seq<(Seq<char>, WordView)> {
    match table {
        Some(entries) => table_view(entries@),
        None => Seq::empty(),
    }
}

/// The keys of a table.
pub open spec fn table_keys(table: Seq<(Seq<char>, WordView)>) -> Seq<Seq<char>> {
    Seq::new(table.len(), |i: int| table[i].0)
}

/// No key stands twice in the table.
pub open spec fn keyed_once(table: Seq<(Seq<char>, WordView)>) -> bool {
    forall|i: int, j: int| 0 <= i < j < table.len() ==> table[i].0 != table[j].0
}

/// The word that the table holds under `key`.
pub open spec fn entry_found(table: Seq<(Seq<char>, WordView)>, key: Seq<char>) -> Option<WordView> {
    let at = first_keyed(table_keys(table), key, 0);
    if at < table.len() {
        Some(table[at].1)
    } else {
        None
    }
}

/// The table with `w` under `key`; unchanged where the key is taken.
pub open spec fn entered(table: Seq<(Seq<char>, WordView)>, key: Seq<char>, w: WordView) -> Seq<
    (Seq<char>, WordView),
> {
    if first_keyed(table_keys(table), key, 0) < table.len() {
        table
    } else {
        table.push((key, w))
    }
}

/// `first_keyed` finds a key where it stands first, and a key that stands
/// nowhere it does not find.
pub proof fn lemma_first_keyed(keys: Seq<Seq<char>>, key: Seq<char>, from: int)
    requires
        0 <= from <= keys.len(),
    ensures
        from <= first_keyed(keys, key, from) <= keys.len(),
        first_keyed(keys, key, from) < keys.len() ==> keys[first_keyed(keys, key, from)] == key,
        forall|k: int| from <= k < first_keyed(keys, key, from) ==> keys[k] != key,
    decreases keys.len() - from,
{
    if from < keys.len() && keys[from] != key {
        lemma_first_keyed(keys, key, from + 1);
    }
}

/// Entering a word keeps every key single.
pub proof fn lemma_entered_keyed_once(table: Seq<(Seq<char>, WordView)>, key: Seq<char>, w: WordView)
    requires
        keyed_once(table),
    ensures
        keyed_once(entered(table, key, w)),
{
    lemma_first_keyed(table_keys(table), key, 0);
    let out = entered(table, key, w);
    if first_keyed(table_keys(table), key, 0) >= table.len() {
        assert forall|i: int, j: int| 0 <= i < j < out.len() implies out[i].0 != out[j].0 by {
            if j == table.len() {
                assert(table_keys(table)[i] != key);
            }
        }
    }
}

/// Looks a word up in one table.
pub fn look_up<'a>(table: &Vec<(String, &'a Word<Attribute>)>, key: &str) -> (out: Option<
    &'a Word<Attribute>,
>)
    ensures
        match out {
            Some(w) => entry_found(table_view(table@), key@) == Some(w@),
            None => entry_found(table_view(table@), key@) is None,
        },
{
    let ghost keys = table_keys(table_view(table@));
    let mut i: usize = 0;
    while i < table.len()
        invariant
            i <= table@.len(),
            keys == table_keys(table_view(table@)),
            first_keyed(keys, key@, 0) == first_keyed(keys, key@, i as int),
        decreases table@.len() - i,
    {
        assert(keys[i as int] == table@[i as int].0@);
        if same_text(table[i].0.as_str(), key) {
            return Some(table[i].1);
        }
        i += 1;
    }
    None
}

impl<'a> LookupTable<'a> {
    /// No key stands twice in either table.
    pub open spec fn well_formed(&self) -> bool {
        keyed_once(optional_table_view(self.lang)) && keyed_once(optional_table_view(self.txln))
    }

    /// A lookup table without tables.
    pub fn new() -> (out: Self)
        ensures
            out.lang is None,
            out.txln is None,
            out.well_formed(),
    {
        LookupTable { lang: None, txln: None }
    }

    /// The word of the language with this lemma.
    pub fn by_lemma(&self, lemma: &str) -> (out: Option<&'a Word<Attribute>>)
        ensures
            match out {
                Some(w) => entry_found(optional_table_view(self.lang), lemma@) == Some(w@),
                None => entry_found(optional_table_view(self.lang), lemma@) is None,
            },
    {
        match &self.lang {
            Some(table) => look_up(table, lemma),
            None => None,
        }
    }

    /// The word of the language with this gloss.
    pub fn by_gloss(&self, gloss: &str) -> (out: Option<&'a Word<Attribute>>)
        ensures
            match out {
                Some(w) => entry_found(optional_table_view(self.txln), gloss@) == Some(w@),
                None => entry_found(optional_table_view(self.txln), gloss@) is None,
            },
    {
        match &self.txln {
            Some(table) => look_up(table, gloss),
            None => None,
        }
    }

    /// Enters a word into both tables, under its lemma and under its gloss.
    /// A table that holds the key already stays as it is; an absent table
    /// is begun.
    pub fn enter(self, w: &'a Word<Attribute>) -> (out: Self)
        requires
            self.well_formed(),
        ensures
            out.well_formed(),
            out.lang is Some,
            out.txln is Some,
            optional_table_view(out.lang) == entered(
                optional_table_view(self.lang),
                w.lemma@,
                w@,
            ),
            optional_table_view(out.txln) == entered(
                optional_table_view(self.txln),
                w.gloss@,
                w@,
            ),
    {
        let ghost lang_before = optional_table_view(self.lang);
        let ghost txln_before = optional_table_view(self.txln);
        let LookupTable { lang, txln } = self;
        let mut lang = match lang {
            Some(table) => table,
            None => Vec::new(),
        };
        let mut txln = match txln {
            Some(table) => table,
            None => Vec::new(),
        };
        proof {
            assert(table_view(lang@) =~= lang_before);
            assert(table_view(txln@) =~= txln_before);
            lemma_entered_keyed_once(lang_before, w.lemma@, w@);
            lemma_entered_keyed_once(txln_before, w.gloss@, w@);
        }
        if look_up(&lang, w.lemma.as_str()).is_none() {
            lang.push((w.lemma.clone(), w));
            proof {
                assert(table_view(lang@) =~= lang_before.push((w.lemma@, w@)));
            }
        }
        if look_up(&txln, w.gloss.as_str()).is_none() {
            txln.push((w.gloss.clone(), w));
            proof {
                assert(table_view(txln@) =~= txln_before.push((w.gloss@, w@)));
            }
        }
        LookupTable { lang: Some(lang), txln: Some(txln) }
    }
}

} // verus!
