//! The navigable maze: a finished grid, the agent's position, and the
//! history of positions used by the undo operation.

use vstd::prelude::*;
use std::collections::VecDeque;
use crate::piece::{Orientation, Piece, TypePiece, VuePiece};
use crate::grille::Grille;
use crate::doors::{
    dans_rectangle, generer_portes, get_next_room, pas, vue_coord,
};
use crate::modele::{
    labyrinthe_valide, labyrinthe_valide_avec_fin, origine, porte_la,
    portes_bidirectionnelles,
};
use crate::alea::generateur_depuis_graine;

verus! {

/// What a move attempt reports.
#[derive(Debug, PartialEq, Eq, Structural, Copy, Clone)]
pub enum RapportDeplacement {
    /// The agent walked through the door and occupies the next room.
    Avancee,
    /// The current room has no door that way; nothing changed.
    PasDePorte,
    /// The agent stepped onto a coordinate that holds no room.
    EndroitInconnu,
    /// No room exists at the current position; nothing changed.
    PositionInconnue,
}

/// What an undo attempt reports.
#[derive(Debug, PartialEq, Eq, Structural, Copy, Clone)]
pub enum RapportRetour {
    /// The agent is back at its previous position.
    Revenu,
    /// There was no previous position; nothing changed.
    HistoriqueVide,
}

/// A maze ready to be walked: the frozen grid of rooms, the current
/// position, and the stack of previously occupied positions.
pub struct Labyrinthe {
    grid: Grille,
    position: (i32, i32),
    historique: VecDeque<(i32, i32)>,
}

impl Labyrinthe {
    /// The mathematical grid of the maze.
    pub closed spec fn vue_grille(&self) -> Map<(int, int), VuePiece> {
        self.grid@
    }

    /// The current position.
    pub closed spec fn vue_position(&self) -> (int, int) {
        vue_coord(self.position)
    }

    /// The positions previously occupied, most recent last.
    pub closed spec fn vue_historique(&self) -> Seq<(int, int)> {
        self.historique@.map_values(|c: (i32, i32)| vue_coord(c))
    }

    /// What navigation relies on: the grid is frozen and bidirectional,
    /// its coordinates are small enough to step from, the current position
    /// is a room, and so is every remembered position.
    pub closed spec fn inv(&self) -> bool {
        &&& self.grid.bien_formee()
        &&& portes_bidirectionnelles(self.grid@)
        &&& forall |c: (int, int)| #[trigger] self.grid@.contains_key(c)
            ==> -20000 <= c.0 <= 20000 && -20000 <= c.1 <= 20000
        &&& self.grid@.contains_key(self.vue_position())
        &&& forall |i: int| 0 <= i < self.vue_historique().len()
            ==> self.grid@.contains_key(#[trigger] self.vue_historique()[i])
    }

    /// Builds the empty rectangular grid: one ordinary room without doors
    /// for every cell.
    fn generer_labyrinthe(largeur: i32, hauteur: i32) -> (r: Grille)
        requires
            2 <= largeur <= 30000,
            2 <= hauteur <= 30000,
        ensures
            r.bien_formee(),
            crate::modele::grille_vierge(r@, largeur as int, hauteur as int),
    {
        let min_x = -(largeur / 2);
        let max_x = largeur / 2;
        let min_y = -(hauteur / 2);
        let max_y = hauteur / 2;
        let mut grille = Grille::vide();
        let mut x = min_x;
        while x <= max_x
            invariant
                min_x <= x <= max_x + 1,
                min_x == -(largeur as int / 2) && max_x == largeur as int / 2,
                min_y == -(hauteur as int / 2) && max_y == hauteur as int / 2,
                2 <= largeur <= 30000,
                2 <= hauteur <= 30000,
                grille.bien_formee(),
                forall |c: (int, int)| #[trigger] grille@.contains_key(c)
                    <==> (min_x <= c.0 < x && min_y <= c.1 <= max_y),
                forall |c: (int, int)| #[trigger] grille@.contains_key(c)
                    ==> grille@[c].typage == TypePiece::Normal && grille@[c].portes.len() == 0,
            decreases max_x + 1 - x,
        {
            let mut y = min_y;
            while y <= max_y
                invariant
                    min_x <= x <= max_x,
                    min_y <= y <= max_y + 1,
                    min_x == -(largeur as int / 2) && max_x == largeur as int / 2,
                    min_y == -(hauteur as int / 2) && max_y == hauteur as int / 2,
                    2 <= largeur <= 30000,
                    2 <= hauteur <= 30000,
                    grille.bien_formee(),
                    forall |c: (int, int)| #[trigger] grille@.contains_key(c)
                        <==> ((min_x <= c.0 < x && min_y <= c.1 <= max_y)
                            || (c.0 == x && min_y <= c.1 < y)),
                    forall |c: (int, int)| #[trigger] grille@.contains_key(c)
                        ==> grille@[c].typage == TypePiece::Normal && grille@[c].portes.len() == 0,
                decreases max_y + 1 - y,
            {
                grille.inserer((x, y), Piece {
                    orientations: Vec::new(),
                    typage_piece: TypePiece::Normal,
                });
                y += 1;
            }
            x += 1;
        }
        grille
    }

    /// Builds a maze of the given sides, deterministically from the seed:
    /// the empty grid is carved into a valid maze, and the agent starts at
    /// the origin with an empty history.
    pub fn new(largeur: i32, hauteur: i32, graine: u64) -> (r: Labyrinthe)
        requires
            2 <= largeur <= 30000,
            2 <= hauteur <= 30000,
        ensures
            r.inv(),
            labyrinthe_valide(r.vue_grille(), largeur as int, hauteur as int),
            r.vue_position() == origine(),
            r.vue_historique().len() == 0,
    {
        let mut generateur = generateur_depuis_graine(graine);
        let grille = Self::generer_labyrinthe(largeur, hauteur);
        let g = generer_portes(grille, largeur, hauteur, &mut generateur);
        let l = Labyrinthe {
            grid: g,
            position: (0, 0),
            historique: VecDeque::new(),
        };
        proof {
            let li = largeur as int;
            let hi = hauteur as int;
            let cf = choose |cf: (int, int)| labyrinthe_valide_avec_fin(g@, li, hi, cf);
            assert(dans_rectangle(origine(), li, hi));
            assert(g@.contains_key(origine()));
            assert forall |c: (int, int)| #[trigger] g@.contains_key(c)
                implies -20000 <= c.0 <= 20000 && -20000 <= c.1 <= 20000 by {
                assert(dans_rectangle(c, li, hi) || c == cf);
            }
            assert(l.vue_historique() =~= Seq::<(int, int)>::empty());
            assert(l.inv());
        }
        l
    }

    /// The room at the current position.
    pub fn piece_actuelle(&self) -> (r: Option<&Piece>)
        requires
            self.inv(),
        ensures
            r matches Some(p) ==> self.vue_grille().contains_key(self.vue_position())
                && p@ == self.vue_grille()[self.vue_position()],
            r is None ==> !self.vue_grille().contains_key(self.vue_position()),
    {
        self.grid.lire(self.position)
    }

    /// The room at an arbitrary coordinate.
    pub fn piece_en(&self, position: (i32, i32)) -> (r: Option<&Piece>)
        requires
            self.inv(),
        ensures
            r matches Some(p) ==> self.vue_grille().contains_key(vue_coord(position))
                && p@ == self.vue_grille()[vue_coord(position)],
            r is None ==> !self.vue_grille().contains_key(vue_coord(position)),
    {
        self.grid.lire(position)
    }

    /// The current position.
    pub fn position(&self) -> (r: (i32, i32))
        ensures
            vue_coord(r) == self.vue_position(),
    {
        self.position
    }

    /// How many positions the undo history holds.
    pub fn taille_historique(&self) -> (n: usize)
        ensures
            n == self.vue_historique().len(),
    {
        self.historique.len()
    }

    /// Tries to move the agent one room in the given direction.  With a
    /// door there, the old position is remembered and the agent advances;
    /// without one, nothing changes and the report says so.
    pub fn deplacer(&mut self, direction: Orientation) -> (r: RapportDeplacement)
        requires
            old(self).inv(),
        ensures
            final(self).inv(),
            final(self).vue_grille() == old(self).vue_grille(),
            porte_la(old(self).vue_grille(), old(self).vue_position(), direction) ==> {
                &&& r == RapportDeplacement::Avancee
                &&& final(self).vue_position() == pas(old(self).vue_position(), direction)
                &&& final(self).vue_historique()
                    == old(self).vue_historique().push(old(self).vue_position())
            },
            !porte_la(old(self).vue_grille(), old(self).vue_position(), direction) ==> {
                &&& r == RapportDeplacement::PasDePorte
                &&& final(self).vue_position() == old(self).vue_position()
                &&& final(self).vue_historique() == old(self).vue_historique()
            },
    {
        let ghost g = self.grid@;
        let ghost avant = self.vue_position();
        let ghost hist0 = self.historique@;
        let nouvelle_position = get_next_room(self.position, direction);
        let porte_ouverte = match self.grid.lire(self.position) {
            Some(piece) => piece.possede_porte(direction),
            // the invariant keeps the current position on a room, so this
            // report never comes out of a maze the library built
            None => {
                return RapportDeplacement::PositionInconnue;
            }
        };
        if porte_ouverte {
            self.historique.push_back(self.position);
            self.position = nouvelle_position;
            proof {
                assert(porte_la(g, avant, direction));
                assert(g.contains_key(pas(avant, direction)));
                assert(self.vue_historique() =~= hist0.map_values(
                    |c: (i32, i32)| vue_coord(c)).push(avant));
                assert forall |i: int| 0 <= i < self.vue_historique().len()
                    implies g.contains_key(#[trigger] self.vue_historique()[i]) by {
                    if i < hist0.len() {
                        assert(self.vue_historique()[i] == old(self).vue_historique()[i]);
                    }
                }
            }
            match self.grid.lire(self.position) {
                Some(_) => RapportDeplacement::Avancee,
                // dead for the same reason: the door's twin guarantees a
                // room on the other side
                None => RapportDeplacement::EndroitInconnu,
            }
        } else {
            RapportDeplacement::PasDePorte
        }
    }

    /// Brings the agent back to its previous position, if one exists.
    pub fn revenir(&mut self) -> (r: RapportRetour)
        requires
            old(self).inv(),
        ensures
            final(self).inv(),
            final(self).vue_grille() == old(self).vue_grille(),
            old(self).vue_historique().len() > 0 ==> {
                &&& r == RapportRetour::Revenu
                &&& final(self).vue_position() == old(self).vue_historique().last()
                &&& final(self).vue_historique() == old(self).vue_historique().drop_last()
            },
            old(self).vue_historique().len() == 0 ==> {
                &&& r == RapportRetour::HistoriqueVide
                &&& final(self).vue_position() == old(self).vue_position()
                &&& final(self).vue_historique() == old(self).vue_historique()
            },
    {
        let ghost hist0 = self.historique@;
        match self.historique.pop_back() {
            Some(position_precedente) => {
                self.position = position_precedente;
                proof {
                    assert(self.vue_historique() =~= old(self).vue_historique().drop_last());
                    assert(old(self).vue_historique().last()
                        == vue_coord(hist0[hist0.len() - 1]));
                    assert forall |i: int| 0 <= i < self.vue_historique().len()
                        implies self.grid@.contains_key(#[trigger] self.vue_historique()[i]) by {
                        assert(self.vue_historique()[i] == old(self).vue_historique()[i]);
                    }
                    assert(self.grid@.contains_key(self.vue_position())) by {
                        assert(old(self).vue_historique()[hist0.len() - 1]
                            == self.vue_position());
                    }
                }
                RapportRetour::Revenu
            }
            None => RapportRetour::HistoriqueVide,
        }
    }
}

/// Law: a move through an existing door followed immediately by an undo
/// restores the previous position and leaves the history as it was,
/// whatever valid moves came before.  The three states are related exactly
/// as the contracts of `deplacer` and `revenir` describe.
pub proof fn lemme_aller_retour(
    l0: Labyrinthe,
    l1: Labyrinthe,
    l2: Labyrinthe,
    direction: Orientation,
)
    requires
        l0.inv(),
        porte_la(l0.vue_grille(), l0.vue_position(), direction),
        l1.vue_grille() == l0.vue_grille(),
        l1.vue_position() == pas(l0.vue_position(), direction),
        l1.vue_historique() == l0.vue_historique().push(l0.vue_position()),
        l2.vue_position() == l1.vue_historique().last(),
        l2.vue_historique() == l1.vue_historique().drop_last(),
    ensures
        l2.vue_position() == l0.vue_position(),
        l2.vue_historique() == l0.vue_historique(),
        l2.vue_historique().len() == l0.vue_historique().len(),
{
    assert(l1.vue_historique().last() == l0.vue_position());
    assert(l0.vue_historique().push(l0.vue_position()).drop_last() =~= l0.vue_historique());
}

} // verus!
