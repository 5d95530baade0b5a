//! Rooms of the maze: cardinal door orientations, room roles and the
//! validating room constructor.

use vstd::prelude::*;
use crate::ErreurLabyrinthe;

verus! {

/// A cardinal direction in which a room may have a door.
#[derive(Debug, PartialEq, Eq, Structural, Copy, Clone)]
pub enum Orientation {
    N,
    S,
    E,
    O,
}

/// The role of a room: start of the maze, end of the maze, or an ordinary room.
#[derive(Debug, PartialEq, Eq, Structural, Copy, Clone)]
pub enum TypePiece {
    Debut,
    Fin,
    Normal,
}

/// A room: its role and the list of directions holding a door.
#[derive(Debug, PartialEq, Clone)]
pub struct Piece {
    pub orientations: Vec<Orientation>,
    pub typage_piece: TypePiece,
}

/// The mathematical model of a room.
pub ghost struct VuePiece {
    pub typage: TypePiece,
    pub portes: Seq<Orientation>,
}

impl View for Piece {
    type V = VuePiece;

    open spec fn view(&self) -> VuePiece {
        VuePiece { typage: self.typage_piece, portes: self.orientations@ }
    }
}

/// How many doors a room of a given role may own: start and end rooms have
/// exactly one door, ordinary rooms between one and four.
pub open spec fn nombre_portes_valide(typage: TypePiece, nombre: int) -> bool {
    match typage {
        TypePiece::Debut => nombre == 1,
        TypePiece::Fin => nombre == 1,
        TypePiece::Normal => 1 <= nombre <= 4,
    }
}

/// The character at row `i`, column `j` of a room's rendering: `'o'` at
/// the centre and on the cells of each open door, `'X'` everywhere else.
/// East and west doors occupy two cells each.
pub open spec fn caractere_affichage(portes: Seq<Orientation>, i: int, j: int) -> char {
    if i == 1 && j == 2 {
        'o'
    } else if i == 0 && j == 2 {
        if portes.contains(Orientation::N) { 'o' } else { 'X' }
    } else if i == 2 && j == 2 {
        if portes.contains(Orientation::S) { 'o' } else { 'X' }
    } else if i == 1 && (j == 3 || j == 4) {
        if portes.contains(Orientation::E) { 'o' } else { 'X' }
    } else if i == 1 && (j == 0 || j == 1) {
        if portes.contains(Orientation::O) { 'o' } else { 'X' }
    } else {
        'X'
    }
}

impl Piece {
    /// Builds a room after checking that the number of doors suits the role.
    pub fn new(typage_piece: TypePiece, orientations: Vec<Orientation>) -> (r: Result<Piece, ErreurLabyrinthe>)
        ensures
            r is Ok <==> nombre_portes_valide(typage_piece, orientations@.len() as int),
            r matches Ok(p) ==> p@.typage == typage_piece && p@.portes == orientations@,
            r matches Err(e) ==> e == ErreurLabyrinthe::NombrePortesInvalide,
    {
        let nombre_portes = orientations.len();
        match typage_piece {
            TypePiece::Debut | TypePiece::Fin => {
                if nombre_portes != 1 {
                    return Err(ErreurLabyrinthe::NombrePortesInvalide);
                }
            }
            TypePiece::Normal => {
                if nombre_portes < 1 || nombre_portes > 4 {
                    return Err(ErreurLabyrinthe::NombrePortesInvalide);
                }
            }
        }
        Ok(Piece { orientations, typage_piece })
    }

    /// Whether the room owns a door in the given direction.
    pub fn possede_porte(&self, direction: Orientation) -> (r: bool)
        ensures
            r == self@.portes.contains(direction),
    {
        let mut i: usize = 0;
        while i < self.orientations.len()
            invariant
                i <= self.orientations@.len(),
                forall |j: int| 0 <= j < i ==> self.orientations@[j] != direction,
            decreases self.orientations@.len() - i,
        {
            if self.orientations[i] == direction {
                return true;
            }
            i += 1;
        }
        false
    }

    /// Renders the room as its fixed grid of three rows of five
    /// characters, walls as `'X'`, the centre and the open doors as `'o'`.
    pub fn grille_affichage(&self) -> (r: Vec<Vec<char>>)
        ensures
            r@.len() == 3,
            forall |i: int| 0 <= i < 3 ==> (#[trigger] r@[i])@.len() == 5,
            forall |i: int, j: int| 0 <= i < 3 && 0 <= j < 5
                ==> r@[i]@[j] == caractere_affichage(self@.portes, i, j),
    {
        let nord = self.possede_porte(Orientation::N);
        let sud = self.possede_porte(Orientation::S);
        let est = self.possede_porte(Orientation::E);
        let ouest = self.possede_porte(Orientation::O);
        let mut haut: Vec<char> = Vec::new();
        haut.push('X');
        haut.push('X');
        haut.push(if nord { 'o' } else { 'X' });
        haut.push('X');
        haut.push('X');
        let mut milieu: Vec<char> = Vec::new();
        milieu.push(if ouest { 'o' } else { 'X' });
        milieu.push(if ouest { 'o' } else { 'X' });
        milieu.push('o');
        milieu.push(if est { 'o' } else { 'X' });
        milieu.push(if est { 'o' } else { 'X' });
        let mut bas: Vec<char> = Vec::new();
        bas.push('X');
        bas.push('X');
        bas.push(if sud { 'o' } else { 'X' });
        bas.push('X');
        bas.push('X');
        let mut r: Vec<Vec<char>> = Vec::new();
        r.push(haut);
        r.push(milieu);
        r.push(bas);
        proof {
            assert forall |i: int, j: int| 0 <= i < 3 && 0 <= j < 5
                implies r@[i]@[j] == caractere_affichage(self@.portes, i, j) by {
            }
        }
        r
    }
}

} // verus!
