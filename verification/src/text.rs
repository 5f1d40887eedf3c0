//! Splitting and joining text.

use crate::tags::texts;
use vstd::prelude::*;
use vstd::string::{StrSliceExecFns, StringExecFns};

verus! {

/// The pieces of `s` between its commas: one more than it has commas. The
/// empty string has the one piece that is empty.
pub open spec fn split_commas(s: Seq<char>) -> Seq<Seq<char>>
    decreases s.len(),
{
    if s.len() == 0 {
        seq![Seq::<char>::empty()]
    } else {
        let before = split_commas(s.drop_last());
        if s.last() == ',' {
            before.push(Seq::<char>::empty())
        } else {
            before.drop_last().push(before.last().push(s.last()))
        }
    }
}

/// The parts, with `sep` between each two of them.
pub open spec fn joined(parts: Seq<Seq<char>>, sep: Seq<char>) -> Seq<char>
    decreases parts.len(),
{
    if parts.len() == 0 {
        Seq::<char>::empty()
    } else if parts.len() == 1 {
        parts[0]
    } else {
        joined(parts.drop_last(), sep) + sep + parts.last()
    }
}

/// The pieces between the commas hold no comma, and joined with commas they
/// give the string back.
pub proof fn lemma_split_commas(s: Seq<char>)
    ensures
        split_commas(s).len() >= 1,
        forall|i: int|
            0 <= i < split_commas(s).len() ==> !(#[trigger] split_commas(s)[i]).contains(','),
        joined(split_commas(s), seq![',']) == s,
    decreases s.len(),
{
    let pieces = split_commas(s);
    if s.len() == 0 {
        assert(pieces.len() == 1);
        assert(pieces[0] =~= Seq::<char>::empty());
        assert(joined(pieces, seq![',']) =~= s);
    } else {
        let front = s.drop_last();
        let before = split_commas(front);
        lemma_split_commas(front);
        if s.last() == ',' {
            assert(pieces.drop_last() =~= before);
            assert(joined(pieces, seq![',']) =~= front.push(','));
            assert(front.push(',') =~= s);
            assert forall|i: int| 0 <= i < pieces.len() implies !(#[trigger] pieces[i]).contains(
                ',',
            ) by {
                if i < before.len() {
                    assert(pieces[i] == before[i]);
                }
            }
        } else {
            let grown = before.last().push(s.last());
            assert(pieces.last() == grown);
            assert forall|i: int| 0 <= i < pieces.len() implies !(#[trigger] pieces[i]).contains(
                ',',
            ) by {
                if i < before.len() - 1 {
                    assert(pieces[i] == before[i]);
                } else {
                    assert(!before[before.len() - 1].contains(','));
                    if grown.contains(',') {
                        let k = choose|k: int| 0 <= k < grown.len() && grown[k] == ',';
                        if k < grown.len() - 1 {
                            assert(before.last()[k] == ',');
                        }
                    }
                }
            }
            if before.len() == 1 {
                assert(joined(before, seq![',']) == before[0]);
                assert(joined(pieces, seq![',']) =~= front.push(s.last()));
            } else {
                assert(pieces.drop_last() =~= before.drop_last());
                assert(joined(before, seq![',']) == joined(before.drop_last(), seq![','])
                    + seq![','] + before.last());
                assert(joined(pieces, seq![',']) =~= front.push(s.last()));
            }
            assert(front.push(s.last()) =~= s);
        }
    }
}

/// Splits a string at its commas.
pub fn split_at_commas(s: &str) -> (pieces: Vec<String>)
    ensures
        texts(pieces@) == split_commas(s@),
{
    let n = s.unicode_len();
    let mut pieces: Vec<String> = Vec::new();
    let mut start: usize = 0;
    let mut i: usize = 0;
    proof {
        assert(s@.take(0) =~= Seq::<char>::empty());
        assert(texts(pieces@).push(s@.subrange(0, 0)) =~= split_commas(s@.take(0)));
    }
    while i < n
        invariant
            n == s@.len(),
            start <= i <= n,
            texts(pieces@).push(s@.subrange(start as int, i as int)) == split_commas(
                s@.take(i as int),
            ),
        decreases n - i,
    {
        let ghost prefix = s@.take(i as int + 1);
        let ghost done = texts(pieces@);
        let ghost piece = s@.subrange(start as int, i as int);
        proof {
            assert(prefix.drop_last() =~= s@.take(i as int));
            assert(prefix.last() == s@[i as int]);
            assert(done.push(piece).drop_last() =~= done);
            assert(done.push(piece).last() == piece);
        }
        if s.get_char(i) == ',' {
            pieces.push(s.substring_char(start, i).to_owned());
            start = i + 1;
            proof {
                assert(texts(pieces@) =~= done.push(piece));
                assert(s@.subrange(start as int, i as int + 1) =~= Seq::<char>::empty());
            }
        } else {
            proof {
                assert(s@.subrange(start as int, i as int + 1) =~= piece.push(s@[i as int]));
            }
        }
        i += 1;
    }
    let ghost done = texts(pieces@);
    pieces.push(s.substring_char(start, n).to_owned());
    proof {
        assert(texts(pieces@) =~= done.push(s@.subrange(start as int, n as int)));
        assert(s@.take(n as int) =~= s@);
    }
    pieces
}

/// Joins the strings of `list`, with `sep` between each two of them.
pub fn join_texts(list: &Vec<String>, sep: &str) -> (line: String)
    ensures
        line@ == joined(texts(list@), sep@),
{
    let mut line = String::new();
    let mut i: usize = 0;
    assert(texts(list@).take(0) =~= Seq::<Seq<char>>::empty());
    while i < list.len()
        invariant
            i <= list.len(),
            line@ == joined(texts(list@).take(i as int), sep@),
        decreases list.len() - i,
    {
        let ghost prefix = texts(list@).take(i as int + 1);
        proof {
            assert(prefix.drop_last() =~= texts(list@).take(i as int));
            assert(prefix.last() == list@[i as int]@);
        }
        if i > 0 {
            line.append(sep);
            line.append(list[i].as_str());
        } else {
            line.append(list[i].as_str());
            assert(prefix[0] == list@[0]@);
            assert(line@ =~= list@[0]@);
        }
        i += 1;
    }
    assert(texts(list@).take(list.len() as int) =~= texts(list@));
    line
}

} // verus!
