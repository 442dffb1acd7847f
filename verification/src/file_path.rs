//! Paths of files, and when two of them name the same one.

use vstd::prelude::*;

verus! {

/// A path as the system spells it, in any encoding. Two spellings are the same path if they have
/// the same components.
#[derive(Clone, Debug)]
pub struct FilePath {
    pub bytes: Vec<u8>,
}

/// The byte between components.
pub const SEPARATOR: u8 = 0x2f;

/// What stands between the separators, in order; one piece more than there are separators.
pub open spec fn pieces(bytes: Seq<u8>) -> Seq<Seq<u8>>
    decreases bytes.len(),
{
    if bytes.len() == 0 {
        seq![Seq::empty()]
    } else {
        let before = pieces(bytes.drop_last());
        if bytes.last() == SEPARATOR {
            before.push(Seq::empty())
        } else {
            before.drop_last().push(before.last().push(bytes.last()))
        }
    }
}

/// Whether piece `k` of a path is a component: an empty piece is none, and one that names the
/// directory itself, a single dot, is one only where a path starts with it.
pub open spec fn is_component(piece: Seq<u8>, k: int) -> bool {
    piece.len() > 0 && (k == 0 || piece != seq![0x2eu8])
}

/// The components among the first `n` pieces.
pub open spec fn components_among(list: Seq<Seq<u8>>, n: int) -> Seq<Seq<u8>>
    decreases n,
{
    if n <= 0 {
        Seq::empty()
    } else {
        let before = components_among(list, n - 1);
        if is_component(list[n - 1], n - 1) {
            before.push(list[n - 1])
        } else {
            before
        }
    }
}

/// The components of a list of byte strings, as sequences.
pub open spec fn texts(list: Seq<Vec<u8>>) -> Seq<Seq<u8>> {
    Seq::new(list.len(), |i: int| list[i]@)
}

proof fn there_is_a_piece(bytes: Seq<u8>)
    ensures
        pieces(bytes).len() > 0,
    decreases bytes.len(),
{
    if bytes.len() > 0 {
        there_is_a_piece(bytes.drop_last());
    }
}

fn same_bytes(a: &Vec<u8>, b: &Vec<u8>) -> (same: bool)
    ensures
        same == (a@ == b@),
{
    if a.len() != b.len() {
        return false;
    }
    let mut i: usize = 0;
    while i < a.len()
        invariant
            a.len() == b.len(),
            i <= a.len(),
            forall|j: int| 0 <= j < i ==> a[j] == b[j],
        decreases a.len() - i,
    {
        if a[i] != b[i] {
            return false;
        }
        i += 1;
    }
    assert(a@ =~= b@);
    true
}

impl FilePath {
    /// Whether the path starts at the root.
    pub open spec fn absolute(&self) -> bool {
        self.bytes.len() > 0 && self.bytes[0] == SEPARATOR
    }

    /// The names on the way to the file.
    pub open spec fn names(&self) -> Seq<Seq<u8>> {
        components_among(pieces(self.bytes@), pieces(self.bytes@).len() as int)
    }

    /// The paths have the same components, and both start at the root or neither does.
    pub open spec fn same(&self, other: &FilePath) -> bool {
        self.absolute() == other.absolute() && self.names() == other.names()
    }

    fn is_absolute(&self) -> (absolute: bool)
        ensures
            absolute == self.absolute(),
    {
        self.bytes.len() > 0 && self.bytes[0] == SEPARATOR
    }

    /// The components after the root: separators that follow one another or end the path, and
    /// single dots but for one that starts it, do not count.
    pub fn components(&self) -> (list: Vec<Vec<u8>>)
        ensures
            texts(list@) == self.names(),
    {
        let mut list: Vec<Vec<u8>> = Vec::new();
        let mut piece: Vec<u8> = Vec::new();
        let mut first: bool = true;
        let mut i: usize = 0;
        let ghost mut done: int = 0;
        assert(self.bytes@.take(0) =~= Seq::empty());
        assert(pieces(self.bytes@.take(0)) =~= seq![Seq::empty()]);
        assert(piece@ =~= Seq::empty());
        assert(texts(list@) =~= Seq::empty());
        while i < self.bytes.len()
            invariant
                i <= self.bytes.len(),
                done >= 0,
                first == (done == 0),
                pieces(self.bytes@.take(i as int)).len() == done + 1,
                pieces(self.bytes@.take(i as int)).last() == piece@,
                texts(list@) == components_among(pieces(self.bytes@.take(i as int)), done),
            decreases self.bytes.len() - i,
        {
            let byte: u8 = self.bytes[i];
            let ghost before = pieces(self.bytes@.take(i as int));
            proof {
                assert(self.bytes@.take(i + 1).drop_last() =~= self.bytes@.take(i as int));
                assert(self.bytes@.take(i + 1).last() == byte);
            }
            let ghost after = pieces(self.bytes@.take(i + 1));
            if byte == SEPARATOR {
                proof {
                    prefix_decides(before, after, done + 1);
                    prefix_decides(before, after, done);
                }
                note_component(&mut list, piece, first, Ghost(before), Ghost(done));
                piece = Vec::new();
                first = false;
                proof {
                    done = done + 1;
                    assert(piece@ =~= Seq::empty());
                }
            } else {
                proof {
                    prefix_decides(before, after, done);
                }
                piece.push(byte);
            }
            i += 1;
        }
        proof {
            assert(self.bytes@.take(i as int) =~= self.bytes@);
        }
        note_component(&mut list, piece, first, Ghost(pieces(self.bytes@)), Ghost(done));
        list
    }

    /// The same spelling once more.
    pub fn duplicate(&self) -> (copy: FilePath)
        ensures
            copy.bytes@ == self.bytes@,
            copy.same(self),
    {
        let bytes: Vec<u8> = self.bytes.clone();
        assert(bytes@ =~= self.bytes@);
        FilePath { bytes }
    }

    /// Whether the paths have the same components.
    pub fn is_same(&self, other: &FilePath) -> (same: bool)
        ensures
            same == self.same(other),
    {
        if self.is_absolute() != other.is_absolute() {
            return false;
        }
        let a: Vec<Vec<u8>> = self.components();
        let b: Vec<Vec<u8>> = other.components();
        if a.len() != b.len() {
            assert(texts(a@).len() != texts(b@).len());
            return false;
        }
        let mut i: usize = 0;
        while i < a.len()
            invariant
                a.len() == b.len(),
                texts(a@) == self.names(),
                texts(b@) == other.names(),
                i <= a.len(),
                forall|j: int| 0 <= j < i ==> a[j]@ == b[j]@,
            decreases a.len() - i,
        {
            if !same_bytes(&a[i], &b[i]) {
                assert(texts(a@)[i as int] != texts(b@)[i as int]);
                return false;
            }
            i += 1;
        }
        assert(texts(a@) =~= texts(b@));
        true
    }
}

/// The components among pieces that two lists share are the same.
proof fn prefix_decides(a: Seq<Seq<u8>>, b: Seq<Seq<u8>>, n: int)
    requires
        n <= a.len(),
        n <= b.len(),
        forall|i: int| 0 <= i < n ==> a[i] == b[i],
    ensures
        components_among(a, n) == components_among(b, n),
    decreases n,
{
    if n > 0 {
        prefix_decides(a, b, n - 1);
    }
}

/// Adds piece `done` to the components before it, if it is one.
fn note_component(
    list: &mut Vec<Vec<u8>>,
    piece: Vec<u8>,
    first: bool,
    all: Ghost<Seq<Seq<u8>>>,
    done: Ghost<int>,
)
    requires
        0 <= done@ < all@.len(),
        first == (done@ == 0),
        piece@ == all@[done@],
        texts(old(list)@) == components_among(all@, done@),
    ensures
        texts(final(list)@) == components_among(all@, done@ + 1),
{
    let dot: bool = piece.len() == 1 && piece[0] == 0x2e;
    proof {
        if dot {
            assert(piece@ =~= seq![0x2eu8]);
        }
    }
    if piece.len() > 0 && (first || !dot) {
        list.push(piece);
        assert(texts(list@) =~= components_among(all@, done@).push(all@[done@]));
    }
}

/// A path is the same as itself, whichever of two is asked, and through a third.
pub proof fn sameness_is_an_equivalence(a: FilePath, b: FilePath, c: FilePath)
    ensures
        a.same(&a),
        a.same(&b) == b.same(&a),
        a.same(&b) && b.same(&c) ==> a.same(&c),
{
}

/// A separator after a path changes nothing, unless it is the whole path.
pub proof fn a_last_separator_changes_nothing(path: FilePath, longer: FilePath)
    requires
        path.bytes.len() > 0,
        longer.bytes@ == path.bytes@.push(SEPARATOR),
    ensures
        path.same(&longer),
{
    let a = pieces(path.bytes@);
    let b = pieces(longer.bytes@);
    there_is_a_piece(path.bytes@);
    assert(longer.bytes@.drop_last() =~= path.bytes@);
    assert(b == a.push(Seq::empty()));
    prefix_decides(a, b, a.len() as int);
    assert(path.bytes@[0] == longer.bytes@[0]);
}

proof fn pieces_of_both(front: Seq<u8>, back: Seq<u8>)
    ensures
        pieces(front.push(SEPARATOR) + back) == pieces(front) + pieces(back),
    decreases back.len(),
{
    let whole = front.push(SEPARATOR) + back;
    if back.len() == 0 {
        assert(whole =~= front.push(SEPARATOR));
        assert(whole.drop_last() =~= front);
        assert(pieces(whole) =~= pieces(front) + pieces(back));
    } else {
        pieces_of_both(front, back.drop_last());
        there_is_a_piece(back.drop_last());
        assert(whole.drop_last() =~= front.push(SEPARATOR) + back.drop_last());
        assert(whole.last() == back.last());
        assert(pieces(whole) =~= pieces(front) + pieces(back));
    }
}

proof fn components_of_both(front: Seq<Seq<u8>>, back: Seq<Seq<u8>>, n: int)
    requires
        front.len() > 0,
        0 <= n <= back.len(),
    ensures
        ({
            let later = components_among(back, n);
            let dotted = later.len() > 0 && later[0] == seq![0x2eu8];
            &&& n > 0 ==> dotted == (back[0] == seq![0x2eu8])
            &&& components_among(front + back, front.len() + n) == components_among(
                front,
                front.len() as int,
            ) + if dotted {
                later.drop_first()
            } else {
                later
            }
        }),
    decreases n,
{
    let whole = front + back;
    let first = components_among(front, front.len() as int);
    if n == 0 {
        prefix_decides(front, whole, front.len() as int);
        assert(first + components_among(back, 0) =~= first);
    } else {
        components_of_both(front, back, n - 1);
        let before = components_among(back, n - 1);
        let later = components_among(back, n);
        assert(whole[front.len() + n - 1] == back[n - 1]);
        assert(seq![0x2eu8].len() == 1);
        if n == 1 {
            assert(before.len() == 0);
            if back[0] == seq![0x2eu8] {
                assert(later =~= seq![back[0]]);
                assert(later.drop_first() =~= Seq::empty());
            }
        } else if back[0] == seq![0x2eu8] && is_component(back[n - 1], n - 1) {
            assert(later.drop_first() =~= before.drop_first().push(back[n - 1]));
        }
        assert(components_among(whole, front.len() + n) =~= first + if back[0] == seq![0x2eu8] {
            later.drop_first()
        } else {
            later
        });
    }
}

/// A path that goes on from another has the names of the one and then of the other, but for a
/// single dot that the second starts with, which is a name only at the very start.
pub proof fn joined_paths_join_their_names(front: FilePath, back: FilePath, whole: FilePath)
    requires
        whole.bytes@ == front.bytes@.push(SEPARATOR) + back.bytes@,
    ensures
        whole.names() == front.names() + if back.names().len() > 0 && back.names()[0]
            == seq![0x2eu8] {
            back.names().drop_first()
        } else {
            back.names()
        },
        front.bytes.len() > 0 ==> whole.absolute() == front.absolute(),
        front.bytes.len() == 0 ==> whole.absolute(),
{
    pieces_of_both(front.bytes@, back.bytes@);
    there_is_a_piece(front.bytes@);
    let (a, b) = (pieces(front.bytes@), pieces(back.bytes@));
    components_of_both(a, b, b.len() as int);
    assert((a + b).len() == a.len() + b.len());
    if front.bytes.len() > 0 {
        assert(whole.bytes@[0] == front.bytes@[0]);
    } else {
        assert(whole.bytes@[0] == SEPARATOR);
    }
}

proof fn one_piece(bytes: Seq<u8>)
    requires
        !bytes.contains(SEPARATOR),
    ensures
        pieces(bytes) == seq![bytes],
    decreases bytes.len(),
{
    if bytes.len() == 0 {
        assert(bytes =~= Seq::empty());
    } else {
        let rest = bytes.drop_last();
        assert forall|b: u8| rest.contains(b) implies bytes.contains(b) by {
            let i = choose|i: int| 0 <= i < rest.len() && rest[i] == b;
            assert(bytes[i] == b);
        }
        one_piece(rest);
        assert(bytes.contains(bytes.last()));
        assert(rest.push(bytes.last()) =~= bytes);
        assert(pieces(bytes) =~= seq![bytes]);
    }
}

/// A path without a separator is relative and is its own single name, unless there is nothing of
/// it.
pub proof fn a_path_without_separators_is_one_name(path: FilePath)
    requires
        !path.bytes@.contains(SEPARATOR),
    ensures
        !path.absolute(),
        path.names() == if path.bytes.len() > 0 {
            seq![path.bytes@]
        } else {
            Seq::empty()
        },
{
    one_piece(path.bytes@);
    let all = pieces(path.bytes@);
    assert(components_among(all, 0) =~= Seq::empty());
    assert(components_among(all, 1) =~= if path.bytes.len() > 0 {
        seq![path.bytes@]
    } else {
        Seq::empty()
    });
    if path.absolute() {
        assert(path.bytes@.contains(path.bytes@[0]));
    }
}

} // verus!
