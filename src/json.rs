//! Framing of the pool snapshot as a JSON array whose elements are already
//! encoded.

use vstd::prelude::*;
use vstd::string::*;

verus! {

/// `items` with `sep` between each two neighbours.
pub open spec fn interspersed(items: Seq<Seq<char>>, sep: Seq<char>) -> Seq<Seq<char>>
    decreases items.len(),
{
    if items.len() <= 1 {
        items
    } else {
        interspersed(items.drop_last(), sep).push(sep).push(items.last())
    }
}

/// The pieces laid end to end.
pub open spec fn concat(pieces: Seq<Seq<char>>) -> Seq<char>
    decreases pieces.len(),
{
    if pieces.len() == 0 {
        Seq::empty()
    } else {
        concat(pieces.drop_last()) + pieces.last()
    }
}

/// The items joined by `sep`.
pub open spec fn join(items: Seq<Seq<char>>, sep: Seq<char>) -> Seq<char>
    decreases items.len(),
{
    if items.len() == 0 {
        Seq::empty()
    } else if items.len() == 1 {
        items[0]
    } else {
        join(items.drop_last(), sep) + sep + items.last()
    }
}

/// A JSON array of the given encoded elements.
pub open spec fn json_array_of(items: Seq<Seq<char>>) -> Seq<char> {
    seq!['['] + join(items, seq![',']) + seq![']']
}

pub proof fn lemma_concat_interspersed(items: Seq<Seq<char>>, sep: Seq<char>)
    ensures
        concat(interspersed(items, sep)) == join(items, sep),
    decreases items.len(),
{
    if items.len() == 1 {
        let s = interspersed(items, sep);
        assert(s.drop_last() =~= Seq::<Seq<char>>::empty());
        assert(concat(s.drop_last()) == Seq::<char>::empty());
        assert(Seq::<char>::empty() + items[0] =~= items[0]);
    } else if items.len() > 1 {
        let prev = interspersed(items.drop_last(), sep);
        lemma_concat_interspersed(items.drop_last(), sep);
        assert(prev.push(sep).push(items.last()).drop_last() == prev.push(sep));
        assert(prev.push(sep).drop_last() == prev);
        assert(concat(prev.push(sep)) == concat(prev) + sep);
        assert(concat(prev.push(sep).push(items.last())) == concat(prev) + sep + items.last());
    }
}

/// Relies on `Itertools::intersperse`: the items in order, with a copy of
/// `sep` between each two neighbours.
#[verifier::external_body]
fn intersperse_strings(items: Vec<String>, sep: String) -> (r: Vec<String>)
    ensures
        r.deep_view() == interspersed(items.deep_view(), sep@),
{
    itertools::Itertools::intersperse(items.into_iter(), sep).collect()
}

/// Frames already encoded elements as a JSON array: `[`, the elements
/// separated by `,`, then `]`.
pub fn json_array(items: Vec<String>) -> (r: String)
    ensures
        r@ == json_array_of(items.deep_view()),
{
    let ghost views = items.deep_view();
    let sep = ",".to_string();
    proof {
        reveal_strlit(",");
        assert(sep@ =~= seq![',']);
    }
    let pieces = intersperse_strings(items, sep);
    proof {
        lemma_concat_interspersed(views, seq![',']);
    }
    let mut out = "[".to_string();
    proof {
        reveal_strlit("[");
        assert(out@ =~= seq!['['] + concat(pieces.deep_view().take(0)));
    }
    let mut i: usize = 0;
    while i < pieces.len()
        invariant
            i <= pieces.len(),
            out@ == seq!['['] + concat(pieces.deep_view().take(i as int)),
        decreases pieces.len() - i,
    {
        proof {
            let d = pieces.deep_view();
            assert(d.take(i as int + 1).drop_last() == d.take(i as int));
            assert(d.take(i as int + 1).last() == pieces[i as int]@);
        }
        out.append(pieces[i].as_str());
        i = i + 1;
    }
    assert(pieces.deep_view().take(pieces.len() as int) == pieces.deep_view());
    out.append("]");
    proof {
        reveal_strlit("]");
        assert(concat(pieces.deep_view()) == join(views, seq![',']));
        assert(out@ =~= json_array_of(views));
    }
    out
}

} // verus!
