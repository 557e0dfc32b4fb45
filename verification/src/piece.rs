use vstd::prelude::*;

verus! {

/// The kind of a piece (pawn, knight, etc.).
#[derive(PartialEq, Eq, Clone, Copy, Hash, Debug, Structural)]
pub enum PieceKind {
    Pawn,
    Knight,
    Bishop,
    Rook,
    Queen,
    Princess,
    King,
    Brawn,
    Unicorn,
    Dragon,
    CommonKing,
    RoyalQueen,
}

/// The number of piece kinds.
pub const N_PIECES: usize = 12;

/// A piece within the game: its kind, its color and whether or not it has already moved.
#[derive(PartialEq, Eq, Clone, Copy, Hash, Debug, Structural)]
pub struct Piece {
    pub kind: PieceKind,
    pub white: bool,
    pub moved: bool,
}

/// The piece kinds that are royal: kings and royal queens.
pub open spec fn kind_is_royal(kind: PieceKind) -> bool {
    kind == PieceKind::King || kind == PieceKind::RoyalQueen
}

/// The piece kinds that may promote, capture en passant and kickstart: pawns and brawns.
pub open spec fn kind_is_pawnlike(kind: PieceKind) -> bool {
    kind == PieceKind::Pawn || kind == PieceKind::Brawn
}

impl Piece {
    /// Creates a new `Piece` instance.
    pub fn new(kind: PieceKind, white: bool, moved: bool) -> (res: Self)
        ensures
            res == (Piece { kind, white, moved }),
    {
        Piece { kind, white, moved }
    }

    /// Returns `true` if the piece is a royal piece (king or royal queen).
    pub fn is_royal(&self) -> (res: bool)
        ensures
            res == kind_is_royal(self.kind),
    {
        match self.kind {
            PieceKind::King | PieceKind::RoyalQueen => true,
            _ => false,
        }
    }

    /// Returns `true` if the piece can castle (king).
    pub fn can_castle(&self) -> (res: bool)
        ensures
            res == (self.kind == PieceKind::King),
    {
        match self.kind {
            PieceKind::King => true,
            _ => false,
        }
    }

    /// Returns `true` if the piece can be castled to (rook).
    pub fn can_castle_to(&self) -> (res: bool)
        ensures
            res == (self.kind == PieceKind::Rook),
    {
        match self.kind {
            PieceKind::Rook => true,
            _ => false,
        }
    }

    /// Returns `true` if the piece can promote (pawns and brawns).
    pub fn can_promote(&self) -> (res: bool)
        ensures
            res == kind_is_pawnlike(self.kind),
    {
        match self.kind {
            PieceKind::Pawn | PieceKind::Brawn => true,
            _ => false,
        }
    }

    /// Returns `true` if the piece can capture a kickstarting piece en passant (pawns and brawns).
    pub fn can_enpassant(&self) -> (res: bool)
        ensures
            res == kind_is_pawnlike(self.kind),
    {
        match self.kind {
            PieceKind::Pawn | PieceKind::Brawn => true,
            _ => false,
        }
    }

    /// Returns `true` if the piece can kickstart (move by two) when it has not moved yet.
    pub fn can_kickstart(&self) -> (res: bool)
        ensures
            res == kind_is_pawnlike(self.kind),
    {
        match self.kind {
            PieceKind::Pawn | PieceKind::Brawn => true,
            _ => false,
        }
    }
}

/// The one-letter (or two-letter) name of a piece kind.
pub open spec fn spec_kind_name(kind: PieceKind) -> Seq<char> {
    match kind {
        PieceKind::Pawn => seq!['P'],
        PieceKind::Knight => seq!['N'],
        PieceKind::Bishop => seq!['B'],
        PieceKind::Rook => seq!['R'],
        PieceKind::Queen => seq!['Q'],
        PieceKind::Princess => seq!['S'],
        PieceKind::King => seq!['K'],
        PieceKind::Brawn => seq!['W'],
        PieceKind::Unicorn => seq!['U'],
        PieceKind::Dragon => seq!['D'],
        PieceKind::CommonKing => seq!['C', 'K'],
        PieceKind::RoyalQueen => seq!['R', 'Q'],
    }
}


impl PieceKind {
    /// The one-letter (or two-letter) name of the piece kind.
    pub fn name(&self) -> (res: &'static str)
        ensures
            res@ == spec_kind_name(*self),
    {
        match self {
            PieceKind::Pawn => {
                proof { reveal_strlit("P"); }
                "P"
            },
            PieceKind::Knight => {
                proof { reveal_strlit("N"); }
                "N"
            },
            PieceKind::Bishop => {
                proof { reveal_strlit("B"); }
                "B"
            },
            PieceKind::Rook => {
                proof { reveal_strlit("R"); }
                "R"
            },
            PieceKind::Queen => {
                proof { reveal_strlit("Q"); }
                "Q"
            },
            PieceKind::Princess => {
                proof { reveal_strlit("S"); }
                "S"
            },
            PieceKind::King => {
                proof { reveal_strlit("K"); }
                "K"
            },
            PieceKind::Brawn => {
                proof { reveal_strlit("W"); }
                "W"
            },
            PieceKind::Unicorn => {
                proof { reveal_strlit("U"); }
                "U"
            },
            PieceKind::Dragon => {
                proof { reveal_strlit("D"); }
                "D"
            },
            PieceKind::CommonKing => {
                proof { reveal_strlit("CK"); }
                "CK"
            },
            PieceKind::RoyalQueen => {
                proof { reveal_strlit("RQ"); }
                "RQ"
            },
        }
    }
}

} // verus!
