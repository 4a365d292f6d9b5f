//! Named byte regions that a parser hands out.

use vstd::prelude::*;

verus! {

/// One extracted region: the name under which it is to be stored and its
/// bytes.
#[derive(Clone, Debug, PartialEq, Eq)]
pub struct Artifact {
    pub name: String,
    pub data: Vec<u8>,
}

/// The mathematical value of an artifact: its name and its bytes.
pub struct Piece {
    pub name: Seq<char>,
    pub data: Seq<u8>,
}

impl View for Artifact {
    type V = Piece;

    open spec fn view(&self) -> Piece {
        Piece { name: self.name@, data: self.data@ }
    }
}

/// The values of a list of artifacts, in order.
pub open spec fn pieces_of(list: Seq<Artifact>) -> Seq<Piece> {
    list.map_values(|a: Artifact| a@)
}

/// The names of a list of pieces, in order.
pub open spec fn piece_names(list: Seq<Piece>) -> Seq<Seq<char>> {
    list.map_values(|p: Piece| p.name)
}

/// The values of a list of strings, in order.
pub open spec fn names_of(list: Seq<String>) -> Seq<Seq<char>> {
    list.map_values(|s: String| s@)
}

/// The names of the artifacts, in order.
pub fn artifact_names(artifacts: &Vec<Artifact>) -> (names: Vec<String>)
    ensures
        names_of(names@) == piece_names(pieces_of(artifacts@)),
{
    let mut names: Vec<String> = Vec::new();
    let mut i: usize = 0;
    while i < artifacts.len()
        invariant
            0 <= i <= artifacts@.len(),
            names@.len() == i,
            forall|k: int| 0 <= k < i ==> names@[k]@ == artifacts@[k].name@,
        decreases artifacts@.len() - i,
    {
        names.push(artifacts[i].name.clone());
        i += 1;
    }
    assert(names_of(names@) =~= piece_names(pieces_of(artifacts@)));
    names
}

} // verus!
