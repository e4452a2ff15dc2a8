//! One directory name for several archives, made from the differences
//! between their names.

use vstd::prelude::*;

use crate::text::{from_chars, push_str, views};

verus! {

/// A piece of a comparison of two texts.
#[derive(Debug)]
pub enum Change {
    /// A piece that both texts hold.
    Same(String),
    /// A piece that only the second text holds.
    Add(String),
    /// A piece that only the first text holds.
    Rem(String),
}

/// `Change` with a text in place of the string.
pub enum Piece {
    Same(Seq<char>),
    Add(Seq<char>),
    Rem(Seq<char>),
}

impl View for Change {
    type V = Piece;

    open spec fn view(&self) -> Piece {
        match *self {
            Change::Same(text) => Piece::Same(text@),
            Change::Add(text) => Piece::Add(text@),
            Change::Rem(text) => Piece::Rem(text@),
        }
    }
}

/// The views of a list of changes.
pub open spec fn pieces(changes: Seq<Change>) -> Seq<Piece> {
    changes.map_values(|c: Change| c@)
}

/// The pieces that `difference::Changeset::new` parts `base` and `edited`
/// into when it compares them character by character.
pub uninterp spec fn changeset(base: Seq<char>, edited: Seq<char>) -> Seq<Piece>;

/// Compares `base` and `edited` character by character with
/// `difference::Changeset::new` and hands its pieces over in their order,
/// each as the `Change` of its kind. Claimed: the pieces depend on the two
/// texts alone. Nothing is claimed of what the pieces are.
#[verifier::external_body]
fn compare(base: &str, edited: &str) -> (changes: Vec<Change>)
    ensures
        pieces(changes@) == changeset(base@, edited@),
{
    difference::Changeset::new(base, edited, "").diffs.into_iter().map(
        |piece| match piece {
            difference::Difference::Same(text) => Change::Same(text),
            difference::Difference::Add(text) => Change::Add(text),
            difference::Difference::Rem(text) => Change::Rem(text),
        },
    ).collect()
}

/// The pieces in a row: what both texts hold and what only the first holds
/// as it is, what only the second holds after an underscore.
pub open spec fn joined(changes: Seq<Piece>) -> Seq<char>
    decreases changes.len(),
{
    if changes.len() == 0 {
        Seq::empty()
    } else {
        joined(changes.drop_last()) + (match changes.last() {
            Piece::Same(text) => text,
            Piece::Rem(text) => text,
            Piece::Add(text) => seq!['_'] + text,
        })
    }
}

/// The name after the first `count` of `names` were laid over `name` one
/// after the other, each by the pieces of its comparison with the name so
/// far.
pub open spec fn folded(name: Seq<char>, names: Seq<Seq<char>>, count: int) -> Seq<char>
    decreases count,
{
    if count <= 0 || count > names.len() {
        name
    } else {
        joined(changeset(folded(name, names, count - 1), names[count - 1]))
    }
}

/// One name for all of `names`: the only name where there is one, else the
/// first name with every name, the first too, laid over it in order.
pub open spec fn combined(names: Seq<Seq<char>>) -> Seq<char> {
    if names.len() == 0 {
        Seq::empty()
    } else if names.len() == 1 {
        names[0]
    } else {
        folded(names[0], names, names.len() as int)
    }
}

/// The pieces of a comparison in a row, what was added after an
/// underscore.
pub fn join_changes(changes: &Vec<Change>) -> (name: String)
    ensures
        name@ == joined(pieces(changes@)),
{
    let ghost all = pieces(changes@);
    let mut out: Vec<char> = Vec::new();
    let mut i: usize = 0;
    assert(all.take(0) =~= Seq::<Piece>::empty());
    while i < changes.len()
        invariant
            i <= changes.len(),
            all == pieces(changes@),
            out@ == joined(all.take(i as int)),
        decreases changes.len() - i,
    {
        proof {
            assert(all.take(i + 1).drop_last() =~= all.take(i as int));
            assert(all.take(i + 1).last() == changes@[i as int]@);
        }
        let ghost before = out@;
        match &changes[i] {
            Change::Same(text) => {
                push_str(&mut out, text.as_str());
            },
            Change::Rem(text) => {
                push_str(&mut out, text.as_str());
            },
            Change::Add(text) => {
                out.push('_');
                push_str(&mut out, text.as_str());
                assert(out@ =~= before + (seq!['_'] + text@));
            },
        }
        i += 1;
    }
    assert(all.take(changes.len() as int) =~= all);
    from_chars(&out)
}

/// One name for all of `names`.
pub fn combine_names(names: &Vec<String>) -> (name: String)
    ensures
        name@ == combined(views(names@)),
{
    if names.len() == 0 {
        return String::new();
    }
    let mut name = names[0].clone();
    if names.len() > 1 {
        let mut i: usize = 0;
        while i < names.len()
            invariant
                i <= names.len(),
                names.len() > 1,
                name@ == folded(names@[0]@, views(names@), i as int),
            decreases names.len() - i,
        {
            let changes = compare(name.as_str(), names[i].as_str());
            name = join_changes(&changes);
            i += 1;
        }
    }
    name
}

} // verus!
