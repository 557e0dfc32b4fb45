use chess5dtools::coords::Coords;
use chess5dtools::piece::{Piece, PieceKind};
use chess5dtools::tile::Tile;

#[test]
fn piece_predicates() {
    let king = Piece::new(PieceKind::King, true, false);
    let rq = Piece::new(PieceKind::RoyalQueen, false, true);
    let pawn = Piece::new(PieceKind::Pawn, true, false);
    let brawn = Piece::new(PieceKind::Brawn, false, false);
    let rook = Piece::new(PieceKind::Rook, true, false);
    assert!(king.is_royal() && rq.is_royal() && !pawn.is_royal());
    assert!(king.can_castle() && !rook.can_castle());
    assert!(rook.can_castle_to() && !king.can_castle_to());
    assert!(pawn.can_promote() && brawn.can_promote() && !rook.can_promote());
    assert!(pawn.can_enpassant() && brawn.can_enpassant() && !king.can_enpassant());
    assert!(pawn.can_kickstart() && !rq.can_kickstart());
}

#[test]
fn tile_constructors_and_queries() {
    let p = Piece::new(PieceKind::Knight, false, true);
    assert_eq!(Tile::new_blank(Some(p)), Tile::Piece(p));
    assert_eq!(Tile::new_blank(None), Tile::Blank);
    assert_eq!(Tile::new_void(None), Tile::Void);
    assert!(Tile::Blank.is_empty());
    assert!(Tile::Void.is_empty());
    assert!(!Tile::Piece(p).is_empty());
    assert_eq!(Tile::Piece(p).piece(), Some(p));
    assert_eq!(Tile::Blank.piece(), None);
    assert_eq!(Tile::Piece(p).map(|x| x.white), Some(false));
    assert_eq!(Tile::Void.map(|x| x.white), None);
}

#[test]
fn tile_conversions() {
    let p = Piece::new(PieceKind::Queen, true, false);
    let t: Tile = p.into();
    assert_eq!(t, Tile::Piece(p));
    let back: Option<Piece> = t.into();
    assert_eq!(back, Some(p));
    let none: Option<Piece> = Tile::Blank.into();
    assert_eq!(none, None);
    let from_none: Tile = Option::<Tile>::None.into();
    assert_eq!(from_none, Tile::Void);
    let from_some: Tile = Some(Tile::Blank).into();
    assert_eq!(from_some, Tile::Blank);
}

#[test]
fn coords_accessors_and_arithmetic() {
    let c = Coords::new(1, 2, 3, 4);
    assert_eq!((c.l(), c.t(), c.x(), c.y()), (1, 2, 3, 4));
    assert_eq!(c.physical(), (3, 4));
    assert_eq!(c.non_physical(), (1, 2));
    let d = Coords(-1, 1, 2, -2);
    assert_eq!(c + d, Coords(0, 3, 5, 2));
    assert_eq!((c + d) - d, c);
    assert_eq!(c - d, Coords(2, 1, 1, 6));
    assert_eq!(c * 2, Coords(2, 4, 6, 8));
    let e: Coords = ((1, 2), (3, 4)).into();
    assert_eq!(e, c);
    let f: Coords = (1isize, 2isize, 3i8, 4i8).into();
    assert_eq!(f, c);
}

#[test]
fn coords_add_then_sub_gives_back_the_coords() {
    let a = Coords(-2, 5, 3, 7);
    let b = Coords(4, -1, -3, 1);
    assert_eq!(a + b, Coords(2, 4, 0, 8));
    assert_eq!((a + b) - b, a);
}

#[test]
fn piece_to_tile_and_back() {
    let p = Piece::new(PieceKind::Unicorn, false, true);
    let back: Option<Piece> = Tile::from(p).into();
    assert_eq!(back, Some(p));
    let none: Option<Piece> = Tile::Blank.into();
    assert_eq!(none, None);
}
