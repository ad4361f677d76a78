//! Categories: named sets of graphemes that a pattern refers to by a short
//! identifier.
//!
//! Before a rule is used, each identifier in its patterns is swapped for a
//! parenthesised alternation of the category's members, longest member first,
//! so that a long member is tried before a shorter one that begins it. An
//! identifier is a label: it is looked for letter by letter, and only in what
//! the rule's author wrote, never in what was written out for a category.

use crate::text::{pieces, spellings, split};
use vstd::prelude::*;
use vstd::string::*;

verus! {

/// A category: its identifier, which stands in a pattern as it is spelt
/// here, and its members in the order of their declaration.
pub struct Category {
    pub id: String,
    pub seqs: Vec<String>,
}

/// A category as plain text values.
pub struct CategoryView {
    pub id: Seq<char>,
    pub members: Seq<Seq<char>>,
}

impl View for Category {
    type V = CategoryView;

    open spec fn view(&self) -> CategoryView {
        CategoryView { id: self.id@, members: spellings(self.seqs@) }
    }
}

/// A list of categories as plain text values.
pub open spec fn category_views(cats: Seq<Category>) -> Seq<CategoryView> {
    Seq::new(cats.len(), |i: int| cats[i]@)
}

/// No member is shorter than one that follows it.
pub open spec fn descending(list: Seq<Seq<char>>) -> bool {
    forall|i: int, j: int| 0 <= i < j < list.len() ==> list[i].len() >= list[j].len()
}

/// Where a member of `width` characters goes in `list`: behind the last
/// member that is at least as long.
pub open spec fn slot(list: Seq<Seq<char>>, width: nat) -> int
    decreases list.len(),
{
    if list.len() == 0 {
        0
    } else if list.last().len() >= width {
        list.len() as int
    } else {
        slot(list.drop_last(), width)
    }
}

/// `list` with `member` put in its slot.
pub open spec fn inserted(list: Seq<Seq<char>>, member: Seq<char>) -> Seq<Seq<char>> {
    list.insert(slot(list, member.len()), member)
}

/// The members ordered longest first; members of one length keep the order
/// of their declaration.
pub open spec fn longest_first(members: Seq<Seq<char>>) -> Seq<Seq<char>>
    decreases members.len(),
{
    if members.len() == 0 {
        Seq::empty()
    } else {
        inserted(longest_first(members.drop_last()), members.last())
    }
}

/// The members written one after another with `sep` between them.
pub open spec fn joined(members: Seq<Seq<char>>, sep: Seq<char>) -> Seq<char>
    decreases members.len(),
{
    if members.len() == 0 {
        Seq::empty()
    } else if members.len() == 1 {
        members[0]
    } else {
        joined(members.drop_last(), sep) + sep + members.last()
    }
}

/// The alternation `(m1|m2|...)` of the members as they stand.
pub open spec fn alternation(members: Seq<Seq<char>>) -> Seq<char> {
    seq!['('] + joined(members, seq!['|']) + seq![')']
}

impl CategoryView {
    /// What the category's identifier is swapped for.
    pub open spec fn disjunction(self) -> Seq<char> {
        alternation(longest_first(self.members))
    }
}

/// A stretch of a pattern: either as the rule's author wrote it, or written
/// out for a category.
pub struct Segment {
    pub written_out: bool,
    pub text: String,
}

/// A stretch of a pattern as plain values.
pub struct SegmentView {
    pub written_out: bool,
    pub text: Seq<char>,
}

impl View for Segment {
    type V = SegmentView;

    open spec fn view(&self) -> SegmentView {
        SegmentView { written_out: self.written_out, text: self.text@ }
    }
}

/// A list of stretches as plain values.
pub open spec fn segment_views(segments: Seq<Segment>) -> Seq<SegmentView> {
    Seq::new(segments.len(), |i: int| segments[i]@)
}

/// The texts of the stretches, one after another.
pub open spec fn assembled(segments: Seq<SegmentView>) -> Seq<char>
    decreases segments.len(),
{
    if segments.len() == 0 {
        Seq::empty()
    } else {
        assembled(segments.drop_last()) + segments.last().text
    }
}

/// The first `n` of `parts` as written, with `with` written out between each
/// two of them.
pub open spec fn interleaved(parts: Seq<Seq<char>>, with: Seq<char>, n: nat) -> Seq<SegmentView>
    decreases n,
{
    if n == 0 {
        Seq::empty()
    } else if n == 1 {
        seq![SegmentView { written_out: false, text: parts[0] }]
    } else {
        interleaved(parts, with, (n - 1) as nat) + seq![
            SegmentView { written_out: true, text: with },
            SegmentView { written_out: false, text: parts[n - 1] },
        ]
    }
}

/// One stretch after the identifier `id` has been looked for in it: a stretch
/// that was written out stays as it is; one as written is cut at every
/// occurrence of `id`, and `with` is written out in its place.
pub open spec fn segment_written_out(segment: SegmentView, id: Seq<char>, with: Seq<char>) -> Seq<
    SegmentView,
> {
    if segment.written_out {
        seq![segment]
    } else {
        interleaved(pieces(segment.text, id), with, pieces(segment.text, id).len())
    }
}

/// The first `n` stretches after the identifier `id` has been looked for in
/// each.
pub open spec fn written_out_upto(
    segments: Seq<SegmentView>,
    id: Seq<char>,
    with: Seq<char>,
    n: nat,
) -> Seq<SegmentView>
    decreases n,
{
    if n == 0 {
        Seq::empty()
    } else {
        written_out_upto(segments, id, with, (n - 1) as nat) + segment_written_out(
            segments[n - 1],
            id,
            with,
        )
    }
}

/// `pattern` in stretches, after the first `n` categories have been written
/// out, in order.
pub open spec fn expanded_segments(pattern: Seq<char>, cats: Seq<CategoryView>, n: nat) -> Seq<
    SegmentView,
>
    decreases n,
{
    if n == 0 {
        seq![SegmentView { written_out: false, text: pattern }]
    } else {
        let prev = expanded_segments(pattern, cats, (n - 1) as nat);
        written_out_upto(prev, cats[n - 1].id, cats[n - 1].disjunction(), prev.len())
    }
}

/// `pattern` with every category written out. What is written out for a
/// category is not searched for any identifier, its own or another's.
pub open spec fn expanded(pattern: Seq<char>, cats: Seq<CategoryView>) -> Seq<char> {
    assembled(expanded_segments(pattern, cats, cats.len()))
}

/// Stretches put one after another assemble to their texts one after
/// another.
pub proof fn lemma_assembled_concat(a: Seq<SegmentView>, b: Seq<SegmentView>)
    ensures
        assembled(a + b) == assembled(a) + assembled(b),
    decreases b.len(),
{
    if b.len() == 0 {
        assert(a + b =~= a);
        assert(assembled(a) + Seq::<char>::empty() =~= assembled(a));
    } else {
        lemma_assembled_concat(a, b.drop_last());
        assert((a + b).drop_last() =~= a + b.drop_last());
        assert((a + b).last() == b.last());
        assert((assembled(a) + assembled(b.drop_last())) + b.last().text =~= assembled(a) + (
        assembled(b.drop_last()) + b.last().text));
    }
}

/// Parts with `with` written out between them assemble to the parts joined by
/// `with`.
pub proof fn lemma_interleaved_joined(parts: Seq<Seq<char>>, with: Seq<char>, n: nat)
    requires
        n <= parts.len(),
    ensures
        assembled(interleaved(parts, with, n)) == joined(parts.subrange(0, n as int), with),
    decreases n,
{
    let upto = parts.subrange(0, n as int);
    if n == 0 {
    } else if n == 1 {
        let one = interleaved(parts, with, 1);
        assert(one.drop_last() =~= Seq::<SegmentView>::empty());
        assert(Seq::<char>::empty() + parts[0] =~= parts[0]);
    } else {
        lemma_interleaved_joined(parts, with, (n - 1) as nat);
        let mark = SegmentView { written_out: true, text: with };
        let piece = SegmentView { written_out: false, text: parts[n - 1] };
        lemma_assembled_concat(interleaved(parts, with, (n - 1) as nat), seq![mark, piece]);
        assert(seq![mark, piece].drop_last() =~= seq![mark]);
        assert(seq![mark].drop_last() =~= Seq::<SegmentView>::empty());
        assert(assembled(Seq::<SegmentView>::empty()) =~= Seq::<char>::empty());
        assert(assembled(seq![mark]) =~= with) by {
            assert(seq![mark].last() == mark);
            assert(Seq::<char>::empty() + with =~= with);
        }
        assert(assembled(seq![mark, piece]) =~= with + parts[n - 1]) by {
            assert(seq![mark, piece].last() == piece);
        }
        assert(upto.drop_last() =~= parts.subrange(0, n - 1));
        assert(joined(upto, with) =~= joined(parts.subrange(0, n - 1), with) + (with + parts[n
            - 1]));
    }
}

/// With one category, the pattern is cut at every occurrence of the
/// identifier, and the parts are joined again by the category's alternation.
pub proof fn expansion_of_one_category(pattern: Seq<char>, cat: CategoryView)
    ensures
        expanded(pattern, seq![cat]) == joined(pieces(pattern, cat.id), cat.disjunction()),
{
    let parts = pieces(pattern, cat.id);
    let whole = seq![SegmentView { written_out: false, text: pattern }];
    assert(expanded_segments(pattern, seq![cat], 0) =~= whole);
    assert(written_out_upto(whole, cat.id, cat.disjunction(), 0) =~= Seq::<SegmentView>::empty());
    assert(written_out_upto(whole, cat.id, cat.disjunction(), 1) =~= interleaved(
        parts,
        cat.disjunction(),
        parts.len(),
    ));
    lemma_interleaved_joined(parts, cat.disjunction(), parts.len());
    assert(parts.subrange(0, parts.len() as int) =~= parts);
}

/// Every stretch that is written out holds the alternation of one of the
/// first `n` categories.
pub open spec fn written_for(segments: Seq<SegmentView>, cats: Seq<CategoryView>, n: nat) -> bool {
    forall|k: int|
        0 <= k < segments.len() && (#[trigger] segments[k]).written_out ==> exists|j: int|
            0 <= j < n && segments[k].text == (#[trigger] cats[j]).disjunction()
}

/// Between parts as written stands only `with`, written out.
pub proof fn lemma_interleaved_marks(parts: Seq<Seq<char>>, with: Seq<char>, n: nat)
    ensures
        forall|k: int|
            0 <= k < interleaved(parts, with, n).len() && (#[trigger] interleaved(
                parts,
                with,
                n,
            )[k]).written_out ==> interleaved(parts, with, n)[k].text == with,
    decreases n,
{
    if n > 1 {
        lemma_interleaved_marks(parts, with, (n - 1) as nat);
        let before = interleaved(parts, with, (n - 1) as nat);
        let out = interleaved(parts, with, n);
        assert forall|k: int| 0 <= k < out.len() && (#[trigger] out[k]).written_out implies out[k].text
            == with by {
            if k < before.len() {
                assert(out[k] == before[k]);
            }
        }
    }
}

/// Looking for one more identifier leaves every written-out stretch an
/// alternation of a category.
pub proof fn lemma_written_out_upto_written_for(
    segments: Seq<SegmentView>,
    cats: Seq<CategoryView>,
    c: nat,
    n: nat,
)
    requires
        c < cats.len(),
        n <= segments.len(),
        written_for(segments, cats, c),
    ensures
        written_for(
            written_out_upto(segments, cats[c as int].id, cats[c as int].disjunction(), n),
            cats,
            (c + 1) as nat,
        ),
    decreases n,
{
    let id = cats[c as int].id;
    let with = cats[c as int].disjunction();
    if n > 0 {
        lemma_written_out_upto_written_for(segments, cats, c, (n - 1) as nat);
        let before = written_out_upto(segments, id, with, (n - 1) as nat);
        let added = segment_written_out(segments[n - 1], id, with);
        let out = written_out_upto(segments, id, with, n);
        lemma_interleaved_marks(pieces(segments[n - 1].text, id), with, pieces(
            segments[n - 1].text,
            id,
        ).len());
        assert forall|k: int| 0 <= k < out.len() && (#[trigger] out[k]).written_out implies exists|
            j: int,
        |
            0 <= j < c + 1 && out[k].text == (#[trigger] cats[j]).disjunction() by {
            if k < before.len() {
                assert(out[k] == before[k]);
                let j = choose|j: int|
                    0 <= j < c + 1 && before[k].text == (#[trigger] cats[j]).disjunction();
                assert(out[k].text == cats[j].disjunction());
            } else {
                assert(out[k] == added[k - before.len()]);
                if segments[n - 1].written_out {
                    assert(out[k] == segments[n - 1]);
                    let j = choose|j: int|
                        0 <= j < c && segments[n - 1].text == (#[trigger] cats[j]).disjunction();
                    assert(out[k].text == cats[j].disjunction());
                } else {
                    assert(out[k].text == cats[c as int].disjunction());
                }
            }
        }
    }
}

/// What is written out for a category stays as it was written: in the
/// expanded pattern every written-out stretch is the alternation of one of
/// the categories, whatever identifiers its members spell.
pub proof fn written_out_stretches_are_alternations(
    pattern: Seq<char>,
    cats: Seq<CategoryView>,
    n: nat,
)
    requires
        n <= cats.len(),
    ensures
        written_for(expanded_segments(pattern, cats, n), cats, n),
    decreases n,
{
    if n > 0 {
        written_out_stretches_are_alternations(pattern, cats, (n - 1) as nat);
        let prev = expanded_segments(pattern, cats, (n - 1) as nat);
        lemma_written_out_upto_written_for(prev, cats, (n - 1) as nat, prev.len());
    }
}

/// The slot lies in the list; what stands from it on is shorter than
/// `width`, and what stands just before it is not.
pub proof fn lemma_slot(list: Seq<Seq<char>>, width: nat)
    ensures
        0 <= slot(list, width) <= list.len(),
        forall|k: int| slot(list, width) <= k < list.len() ==> list[k].len() < width,
        slot(list, width) > 0 ==> list[slot(list, width) - 1].len() >= width,
    decreases list.len(),
{
    if list.len() > 0 && list.last().len() < width {
        let rest = list.drop_last();
        lemma_slot(rest, width);
        assert forall|k: int| slot(list, width) <= k < list.len() implies list[k].len()
            < width by {
            if k < rest.len() {
                assert(list[k] == rest[k]);
            }
        }
        if slot(list, width) > 0 {
            assert(list[slot(list, width) - 1] == rest[slot(rest, width) - 1]);
        }
    }
}

/// Putting a member in its slot keeps a descending list descending.
pub proof fn lemma_inserted_descending(list: Seq<Seq<char>>, member: Seq<char>)
    requires
        descending(list),
    ensures
        descending(inserted(list, member)),
{
    lemma_slot(list, member.len());
    let at = slot(list, member.len());
    let out = inserted(list, member);
    assert forall|i: int, j: int| 0 <= i < j < out.len() implies out[i].len() >= out[j].len() by {
        if i < at && j > at {
            assert(out[i] == list[i]);
            assert(out[j] == list[j - 1]);
        } else if i == at {
            assert(out[j] == list[j - 1]);
        } else if j == at {
            assert(out[i] == list[i]);
            if at > 0 {
                assert(list[i].len() >= list[at - 1].len());
            }
        } else if j < at {
            assert(out[i] == list[i] && out[j] == list[j]);
        } else {
            assert(out[i] == list[i - 1] && out[j] == list[j - 1]);
        }
    }
}

/// Ordering the members longest first gives a descending list that holds the
/// same members, each as often as before, whatever the order of declaration.
pub proof fn longest_first_is_descending_permutation(members: Seq<Seq<char>>)
    ensures
        descending(longest_first(members)),
        longest_first(members).len() == members.len(),
        longest_first(members).to_multiset() == members.to_multiset(),
    decreases members.len(),
{
    broadcast use vstd::seq_lib::group_to_multiset_ensures;

    if members.len() > 0 {
        let rest = members.drop_last();
        longest_first_is_descending_permutation(rest);
        lemma_slot(longest_first(rest), members.last().len());
        lemma_inserted_descending(longest_first(rest), members.last());
        vstd::seq_lib::to_multiset_insert(
            longest_first(rest),
            slot(longest_first(rest), members.last().len()),
            members.last(),
        );
        assert(rest.push(members.last()) =~= members);
        vstd::seq_lib::to_multiset_build(rest, members.last());
    } else {
        assert(members =~= Seq::empty());
    }
}

/// The members ordered longest first.
pub fn sort_longest_first(seqs: &Vec<String>) -> (out: Vec<String>)
    ensures
        spellings(out@) == longest_first(spellings(seqs@)),
{
    let mut out: Vec<String> = Vec::new();
    let mut i: usize = 0;
    proof {
        assert(spellings(seqs@).subrange(0, 0) =~= Seq::empty());
        assert(spellings(out@) =~= Seq::empty());
    }
    while i < seqs.len()
        invariant
            i <= seqs@.len(),
            spellings(out@) == longest_first(spellings(seqs@).subrange(0, i as int)),
            out@.len() == i,
        decreases seqs@.len() - i,
    {
        let member = seqs[i].clone();
        let width = member.as_str().unicode_len();
        let ghost list = spellings(out@);
        let mut at: usize = out.len();
        proof {
            assert(list.subrange(0, at as int) =~= list);
        }
        while at > 0 && out[at - 1].as_str().unicode_len() < width
            invariant
                at <= out@.len(),
                list == spellings(out@),
                slot(list, width as nat) == slot(list.subrange(0, at as int), width as nat),
            decreases at,
        {
            proof {
                assert(list.subrange(0, at as int).drop_last() =~= list.subrange(0, at - 1));
            }
            at -= 1;
        }
        proof {
            assert(slot(list, width as nat) == at);
            let upto = spellings(seqs@).subrange(0, i + 1);
            assert(upto.drop_last() =~= spellings(seqs@).subrange(0, i as int));
            assert(upto.last() == member@);
        }
        out.insert(at, member);
        proof {
            assert(spellings(out@) =~= list.insert(at as int, member@));
        }
        i += 1;
    }
    proof {
        assert(spellings(seqs@).subrange(0, seqs@.len() as int) =~= spellings(seqs@));
    }
    out
}

/// The members written one after another with `sep` between them.
pub fn join(members: &Vec<String>, sep: &str) -> (out: String)
    ensures
        out@ == joined(spellings(members@), sep@),
{
    let ghost list = spellings(members@);
    let mut out = String::new();
    let mut i: usize = 0;
    while i < members.len()
        invariant
            i <= members@.len(),
            list == spellings(members@),
            out@ == joined(list.subrange(0, i as int), sep@),
        decreases members@.len() - i,
    {
        proof {
            assert(list.subrange(0, i + 1).drop_last() =~= list.subrange(0, i as int));
            assert(list.subrange(0, i + 1).last() == members@[i as int]@);
        }
        if i > 0 {
            out.append(sep);
        } else {
            assert(out@ =~= Seq::empty());
            assert(Seq::<char>::empty() + members@[0]@ =~= members@[0]@);
        }
        out.append(members[i].as_str());
        i += 1;
    }
    proof {
        assert(list.subrange(0, members@.len() as int) =~= list);
    }
    out
}

impl Category {
    /// The alternation of the category's members, longest first.
    pub fn disjunction(&self) -> (out: String)
        ensures
            out@ == self@.disjunction(),
    {
        let ordered = sort_longest_first(&self.seqs);
        proof {
            reveal_strlit("(");
            reveal_strlit("|");
            reveal_strlit(")");
            assert("("@ =~= seq!['(']);
            assert("|"@ =~= seq!['|']);
            assert(")"@ =~= seq![')']);
        }
        let mut out = String::from_str("(");
        let inner = join(&ordered, "|");
        out.append(inner.as_str());
        out.append(")");
        out
    }
}

/// Looks for the category's identifier in every stretch that is as written,
/// and writes the category out where it stands.
pub fn write_out(segments: &Vec<Segment>, cat: &Category) -> (out: Vec<Segment>)
    ensures
        segment_views(out@) == written_out_upto(
            segment_views(segments@),
            cat@.id,
            cat@.disjunction(),
            segments@.len(),
        ),
{
    let ghost views = segment_views(segments@);
    let with = cat.disjunction();
    let mut out: Vec<Segment> = Vec::new();
    let mut i: usize = 0;
    proof {
        assert(segment_views(out@) =~= Seq::<SegmentView>::empty());
    }
    while i < segments.len()
        invariant
            i <= segments@.len(),
            views == segment_views(segments@),
            with@ == cat@.disjunction(),
            segment_views(out@) == written_out_upto(views, cat@.id, with@, i as nat),
        decreases segments@.len() - i,
    {
        let ghost base = segment_views(out@);
        let segment = &segments[i];
        assert(views[i as int] == segment@);
        if segment.written_out {
            out.push(Segment { written_out: true, text: segment.text.clone() });
            proof {
                assert(segment_views(out@) =~= base + seq![segment@]);
            }
        } else {
            let parts = split(segment.text.as_str(), cat.id.as_str());
            let ghost texts = spellings(parts@);
            let mut k: usize = 0;
            proof {
                assert(base + interleaved(texts, with@, 0) =~= base);
            }
            while k < parts.len()
                invariant
                    k <= parts@.len(),
                    texts == spellings(parts@),
                    segment_views(out@) == base + interleaved(texts, with@, k as nat),
                decreases parts@.len() - k,
            {
                let ghost so_far = segment_views(out@);
                if k > 0 {
                    out.push(Segment { written_out: true, text: with.clone() });
                }
                out.push(Segment { written_out: false, text: parts[k].clone() });
                proof {
                    let piece = SegmentView { written_out: false, text: texts[k as int] };
                    let mark = SegmentView { written_out: true, text: with@ };
                    if k > 0 {
                        assert(segment_views(out@) =~= so_far + seq![mark, piece]);
                        assert(so_far + seq![mark, piece] =~= base + (interleaved(
                            texts,
                            with@,
                            k as nat,
                        ) + seq![mark, piece]));
                    } else {
                        assert(segment_views(out@) =~= so_far + seq![piece]);
                        assert(interleaved(texts, with@, 0) =~= Seq::<SegmentView>::empty());
                        assert(so_far + seq![piece] =~= base + seq![piece]);
                    }
                }
                k += 1;
            }
        }
        i += 1;
    }
    out
}

/// The texts of the stretches, one after another.
pub fn assemble(segments: &Vec<Segment>) -> (out: String)
    ensures
        out@ == assembled(segment_views(segments@)),
{
    let ghost views = segment_views(segments@);
    let mut out = String::new();
    let mut i: usize = 0;
    while i < segments.len()
        invariant
            i <= segments@.len(),
            views == segment_views(segments@),
            out@ == assembled(views.subrange(0, i as int)),
        decreases segments@.len() - i,
    {
        proof {
            assert(views.subrange(0, i + 1).drop_last() =~= views.subrange(0, i as int));
            assert(views.subrange(0, i + 1).last() == segments@[i as int]@);
        }
        out.append(segments[i].text.as_str());
        i += 1;
    }
    proof {
        assert(views.subrange(0, segments@.len() as int) =~= views);
    }
    out
}

/// Writes out every category that `pattern` refers to, in the order of the
/// list.
pub fn expand(pattern: &str, cats: &Vec<Category>) -> (out: String)
    ensures
        out@ == expanded(pattern@, category_views(cats@)),
{
    let ghost views = category_views(cats@);
    let mut segments: Vec<Segment> = Vec::new();
    segments.push(Segment { written_out: false, text: String::from_str(pattern) });
    proof {
        assert(segment_views(segments@) =~= expanded_segments(pattern@, views, 0));
    }
    let mut i: usize = 0;
    while i < cats.len()
        invariant
            i <= cats@.len(),
            views == category_views(cats@),
            segment_views(segments@) == expanded_segments(pattern@, views, i as nat),
        decreases cats@.len() - i,
    {
        assert(views[i as int] == cats@[i as int]@);
        segments = write_out(&segments, &cats[i]);
        i += 1;
    }
    assemble(&segments)
}

} // verus!
