use vstd::prelude::*;
use crate::piece::Piece;

verus! {

/// The state of a tile: a piece, a blank square of a board, or the void
/// (where there is no board, or out of a board's bounds).
#[derive(Clone, Copy, Debug, PartialEq, Eq, Hash, Structural)]
pub enum Tile {
    Piece(Piece),
    Blank,
    Void,
}

/// The piece on a tile, if there is one.
pub open spec fn spec_tile_piece(tile: Tile) -> Option<Piece> {
    match tile {
        Tile::Piece(p) => Some(p),
        _ => None,
    }
}

impl Tile {
    /// Creates a tile from an optional piece; `None` becomes `Tile::Blank`.
    pub fn new_blank(piece_raw: Option<Piece>) -> (res: Tile)
        ensures
            res == (match piece_raw {
                Some(p) => Tile::Piece(p),
                None => Tile::Blank,
            }),
    {
        match piece_raw {
            Some(piece) => Tile::Piece(piece),
            _ => Tile::Blank,
        }
    }

    /// Creates a tile from an optional piece; `None` becomes `Tile::Void`.
    pub fn new_void(piece_raw: Option<Piece>) -> (res: Tile)
        ensures
            res == (match piece_raw {
                Some(p) => Tile::Piece(p),
                None => Tile::Void,
            }),
    {
        match piece_raw {
            Some(piece) => Tile::Piece(piece),
            _ => Tile::Void,
        }
    }

    /// Returns whether or not there is no piece on the tile.
    pub fn is_empty(&self) -> (res: bool)
        ensures
            res == !(self is Piece),
    {
        match self {
            Tile::Piece(_) => false,
            _ => true,
        }
    }

    /// The piece on the tile, if there is one.
    pub fn piece(&self) -> (res: Option<Piece>)
        ensures
            res == spec_tile_piece(*self),
    {
        match self {
            Tile::Piece(piece) => Some(*piece),
            _ => None,
        }
    }

    /// Applies `f` to the piece on the tile, if there is one (as `Option::map` does).
    pub fn map<X, F: Fn(Piece) -> X>(&self, f: F) -> (res: Option<X>)
        requires
            self is Piece ==> f.requires((self->0,)),
        ensures
            self is Piece <==> res is Some,
            self is Piece ==> f.ensures((self->0,), res->0),
    {
        match self {
            Tile::Piece(p) => Some(f(*p)),
            _ => None,
        }
    }
}

impl From<Piece> for Tile {
    fn from(piece: Piece) -> (res: Tile) {
        Tile::Piece(piece)
    }
}

impl vstd::std_specs::convert::FromSpecImpl<Piece> for Tile {
    open spec fn obeys_from_spec() -> bool {
        true
    }

    open spec fn from_spec(piece: Piece) -> Tile {
        Tile::Piece(piece)
    }
}

impl From<Option<Tile>> for Tile {
    /// `None` becomes `Tile::Void`, as this conversion is mainly used on the result of a board lookup.
    fn from(tile: Option<Tile>) -> (res: Tile) {
        match tile {
            Some(t) => t,
            None => Tile::Void,
        }
    }
}

impl vstd::std_specs::convert::FromSpecImpl<Option<Tile>> for Tile {
    open spec fn obeys_from_spec() -> bool {
        true
    }

    open spec fn from_spec(tile: Option<Tile>) -> Tile {
        match tile {
            Some(t) => t,
            None => Tile::Void,
        }
    }
}

impl From<Tile> for Option<Piece> {
    fn from(tile: Tile) -> (res: Option<Piece>) {
        match tile {
            Tile::Piece(piece) => Some(piece),
            _ => None,
        }
    }
}

impl vstd::std_specs::convert::FromSpecImpl<Tile> for Option<Piece> {
    open spec fn obeys_from_spec() -> bool {
        true
    }

    open spec fn from_spec(tile: Tile) -> Option<Piece> {
        spec_tile_piece(tile)
    }
}

} // verus!
