//! Bytes that lie in several pieces, one behind the other.
use bytes::Bytes;
use vstd::prelude::*;

use crate::bytes_spec::bytes_content;

verus! {

/// The bytes of each piece.
pub open spec fn contents(pieces: Seq<Bytes>) -> Seq<Seq<u8>> {
    pieces.map_values(|b: Bytes| bytes_content(b))
}

/// No piece is empty.
pub open spec fn all_nonempty(pieces: Seq<Seq<u8>>) -> bool {
    forall|i: int| 0 <= i < pieces.len() ==> (#[trigger] pieces[i]).len() > 0
}

/// The pieces that are not empty.
pub open spec fn nonempty_only(pieces: Seq<Seq<u8>>) -> Seq<Seq<u8>> {
    pieces.filter(|s: Seq<u8>| s.len() > 0)
}

/// What is left of the pieces without their first `n` bytes. A piece that is
/// used up is gone.
pub open spec fn drop_bytes(pieces: Seq<Seq<u8>>, n: int) -> Seq<Seq<u8>>
    decreases pieces.len(),
{
    if n <= 0 || pieces.len() == 0 {
        pieces
    } else if n < pieces[0].len() {
        seq![pieces[0].skip(n)] + pieces.drop_first()
    } else {
        drop_bytes(pieces.drop_first(), n - pieces[0].len())
    }
}

/// Dropping bytes drops them from the whole, and leaves no empty piece.
pub proof fn lemma_drop_bytes(pieces: Seq<Seq<u8>>, n: int)
    requires
        all_nonempty(pieces),
        0 <= n <= pieces.flatten().len(),
    ensures
        all_nonempty(drop_bytes(pieces, n)),
        drop_bytes(pieces, n).flatten() == pieces.flatten().skip(n),
    decreases pieces.len(),
{
    if n == 0 || pieces.len() == 0 {
        assert(pieces.flatten().skip(n) =~= pieces.flatten());
    } else {
        let tail = pieces.drop_first();
        assert(all_nonempty(tail)) by {
            assert forall|i: int| 0 <= i < tail.len() implies (#[trigger] tail[i]).len() > 0 by {
                assert(tail[i] == pieces[i + 1]);
            }
        }
        if n < pieces[0].len() {
            let d = drop_bytes(pieces, n);
            assert(d.drop_first() =~= tail);
            assert(d.flatten() =~= pieces.flatten().skip(n));
        } else {
            lemma_drop_bytes(tail, n - pieces[0].len());
            assert(pieces.flatten().skip(n) =~= tail.flatten().skip(n - pieces[0].len()));
        }
    }
}

/// Dropping `m` bytes and then `n` is dropping `m + n`.
pub proof fn lemma_drop_bytes_twice(pieces: Seq<Seq<u8>>, m: int, n: int)
    requires
        all_nonempty(pieces),
        0 <= m,
        0 <= n,
    ensures
        drop_bytes(drop_bytes(pieces, m), n) == drop_bytes(pieces, m + n),
    decreases pieces.len(),
{
    if m > 0 && n > 0 && pieces.len() > 0 {
        let tail = pieces.drop_first();
        assert(all_nonempty(tail)) by {
            assert forall|i: int| 0 <= i < tail.len() implies (#[trigger] tail[i]).len() > 0 by {
                assert(tail[i] == pieces[i + 1]);
            }
        }
        if m < pieces[0].len() {
            let d = drop_bytes(pieces, m);
            assert(d.drop_first() =~= tail);
            assert(d[0] == pieces[0].skip(m));
            if m + n < pieces[0].len() {
                assert(d[0].skip(n) =~= pieces[0].skip(m + n));
            }
        } else {
            lemma_drop_bytes_twice(tail, m - pieces[0].len(), n);
        }
    }
}

/// Pieces none of which is empty are those that are not empty.
pub proof fn lemma_nonempty_only(pieces: Seq<Seq<u8>>)
    requires
        all_nonempty(pieces),
    ensures
        nonempty_only(pieces) == pieces,
    decreases pieces.len(),
{
    reveal(Seq::filter);
    if pieces.len() > 0 {
        assert(all_nonempty(pieces.drop_last()));
        lemma_nonempty_only(pieces.drop_last());
        assert(pieces.drop_last().push(pieces.last()) =~= pieces);
    }
}

/// The pieces that are not empty hold the same bytes as all of them.
pub proof fn lemma_nonempty_flatten(pieces: Seq<Seq<u8>>)
    ensures
        all_nonempty(nonempty_only(pieces)),
        nonempty_only(pieces).flatten() == pieces.flatten(),
    decreases pieces.len(),
{
    reveal(Seq::filter);
    if pieces.len() > 0 {
        let front = pieces.drop_last();
        lemma_nonempty_flatten(front);
        assert(front.push(pieces.last()) =~= pieces);
        front.lemma_flatten_push(pieces.last());
        nonempty_only(front).lemma_flatten_push(pieces.last());
    }
}

/// The pieces hold what each of them holds, in their order.
pub proof fn law_contents(pieces: Seq<Bytes>)
    ensures
        contents(pieces).len() == pieces.len(),
        forall|i: int|
            0 <= i < pieces.len() ==> #[trigger] contents(pieces)[i] == bytes_content(pieces[i]),
{
}

/// Of pieces in a row the empty ones are left out, and every other one stays as it
/// is, in its place. No byte is lost.
pub proof fn law_nonempty_only(before: Seq<Seq<u8>>, piece: Seq<u8>)
    ensures
        nonempty_only(Seq::<Seq<u8>>::empty()).len() == 0,
        nonempty_only(before.push(piece)) == if piece.len() == 0 {
            nonempty_only(before)
        } else {
            nonempty_only(before).push(piece)
        },
        nonempty_only(before).flatten() == before.flatten(),
{
    reveal(Seq::filter);
    assert(before.push(piece).drop_last() =~= before);
    lemma_nonempty_flatten(before);
}

/// Dropping bytes takes them from the first piece, which goes once it is used up,
/// and then from the next. The other pieces stay as they are.
pub proof fn law_drop_bytes(first: Seq<u8>, others: Seq<Seq<u8>>, n: int)
    requires
        all_nonempty(seq![first] + others),
        0 <= n <= (seq![first] + others).flatten().len(),
    ensures
        n == 0 ==> drop_bytes(seq![first] + others, n) == seq![first] + others,
        0 < n < first.len() ==> drop_bytes(seq![first] + others, n) == seq![first.skip(n)] + others,
        n >= first.len() ==> drop_bytes(seq![first] + others, n) == drop_bytes(
            others,
            n - first.len(),
        ),
        drop_bytes(seq![first] + others, n).flatten() == (seq![first] + others).flatten().skip(n),
{
    let p = seq![first] + others;
    assert(p[0] == first);
    assert(first.len() > 0);
    assert(p.drop_first() =~= others);
    lemma_drop_bytes(p, n);
}

} // verus!
