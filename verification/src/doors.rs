//! Coordinate and direction primitives, and the door generator.
//!
//! Coordinates are pairs of signed integers; the maze occupies the closed
//! rectangle `x in [-largeur/2, largeur/2]`, `y in [-hauteur/2, hauteur/2]`,
//! centred on the origin.  The bounds test used while carving is this same
//! closed rectangle, so every cell of the rectangle can be reached by the
//! carve as well as by the patch phase; only the single end room lies
//! outside it.

use vstd::prelude::*;
use vstd::pervasive::unreached;
use crate::piece::{Orientation, Piece, TypePiece, VuePiece};
use crate::grille::{CarteVisites, Grille, contient_coord, visitee};
use crate::alea::tirer_indice;
use crate::modele::{
    accessible, candidat_raccord, comptes_portes_corrects, grille_vierge,
    labyrinthe_valide, labyrinthe_valide_avec_fin, lemme_accessible_monotone,
    lemme_accessible_pas, lemme_accessible_refl, lemme_avec_porte_contient,
    lemme_contient_pousser, lemme_etend_insertion, lemme_etend_porte,
    lemme_nodup_pousser, lemme_portes_bornees, lemme_portes_bornees_sans,
    lemme_raccordable_existe, origine, porte_la,
    portes_bidirectionnelles, relie, roles_corrects, tout_accessible,
};

verus! {

/// Whether `d` may be taken from `c`: its target is unvisited, and lies in
/// the closed rectangle unless `depassement` allows leaving it.
pub open spec fn candidat(
    v: Map<(int, int), bool>,
    c: (int, int),
    d: Orientation,
    largeur: int,
    hauteur: int,
    depassement: bool,
) -> bool {
    &&& (depassement || dans_rectangle(pas(c, d), largeur, hauteur))
    &&& !visitee(v, pas(c, d))
}

/// The mathematical value of an executable coordinate.
pub open spec fn vue_coord(c: (i32, i32)) -> (int, int) {
    (c.0 as int, c.1 as int)
}

/// The neighbour of `c` one step in direction `d`.  The y axis grows
/// southward, as the renderer expects.
pub open spec fn pas(c: (int, int), d: Orientation) -> (int, int) {
    match d {
        Orientation::N => (c.0, c.1 - 1),
        Orientation::S => (c.0, c.1 + 1),
        Orientation::E => (c.0 + 1, c.1),
        Orientation::O => (c.0 - 1, c.1),
    }
}

/// The direction opposite to `d`.
pub open spec fn inverse(d: Orientation) -> Orientation {
    match d {
        Orientation::N => Orientation::S,
        Orientation::S => Orientation::N,
        Orientation::E => Orientation::O,
        Orientation::O => Orientation::E,
    }
}

/// Whether `c` lies in the closed rectangle of a maze of the given sides.
pub open spec fn dans_rectangle(c: (int, int), largeur: int, hauteur: int) -> bool {
    &&& -(largeur / 2) <= c.0 <= largeur / 2
    &&& -(hauteur / 2) <= c.1 <= hauteur / 2
}

/// Stepping in a direction and then in its opposite comes back to the
/// starting coordinate.
pub proof fn lemme_pas_inverse(c: (int, int), d: Orientation)
    ensures
        pas(pas(c, d), inverse(d)) == c,
        inverse(inverse(d)) == d,
{
    match d {
        Orientation::N => {},
        Orientation::S => {},
        Orientation::E => {},
        Orientation::O => {},
    }
}

/// Gives the coordinates of the room one step away in the given direction.
pub fn get_next_room(position: (i32, i32), direction: Orientation) -> (r: (i32, i32))
    requires
        -1_000_000_000 <= position.0 <= 1_000_000_000,
        -1_000_000_000 <= position.1 <= 1_000_000_000,
    ensures
        vue_coord(r) == pas(vue_coord(position), direction),
{
    let (x, y) = position;
    match direction {
        Orientation::N => (x, y - 1),
        Orientation::S => (x, y + 1),
        Orientation::E => (x + 1, y),
        Orientation::O => (x - 1, y),
    }
}

/// Returns the orientation opposite to the one given.
pub fn invert_orientation(orientation: Orientation) -> (r: Orientation)
    ensures
        r == inverse(orientation),
{
    match orientation {
        Orientation::N => Orientation::S,
        Orientation::S => Orientation::N,
        Orientation::E => Orientation::O,
        Orientation::O => Orientation::E,
    }
}

/// Whether `c` lies in the closed rectangle, computed executably.
pub fn dans_rectangle_exec(c: (i32, i32), largeur: i32, hauteur: i32) -> (r: bool)
    requires
        0 <= largeur,
        0 <= hauteur,
    ensures
        r == dans_rectangle(vue_coord(c), largeur as int, hauteur as int),
{
    c.0 >= -(largeur / 2) && c.0 <= largeur / 2 && c.1 >= -(hauteur / 2) && c.1 <= hauteur / 2
}

/// Draws a uniformly random direction out of `position` whose target cell
/// is still unvisited.  Targets must lie in the closed rectangle unless
/// `depassement` permits leaving it; `None` comes back exactly when no
/// direction qualifies.
pub fn random_orientation(
    position: (i32, i32),
    visited_map: &CarteVisites,
    hauteur: i32,
    largeur: i32,
    depassement: bool,
    generateur: &mut rand::rngs::StdRng,
) -> (r: Option<Orientation>)
    requires
        visited_map.bien_formee(),
        0 <= largeur,
        0 <= hauteur,
        -1_000_000_000 <= position.0 <= 1_000_000_000,
        -1_000_000_000 <= position.1 <= 1_000_000_000,
    ensures
        r matches Some(d) ==> candidat(
            visited_map@, vue_coord(position), d, largeur as int, hauteur as int, depassement),
        r is None ==> forall |d: Orientation| !candidat(
            visited_map@, vue_coord(position), d, largeur as int, hauteur as int, depassement),
{
    let ghost v = visited_map@;
    let ghost p = vue_coord(position);
    let ghost li = largeur as int;
    let ghost hi = hauteur as int;
    let mut candidats: Vec<Orientation> = Vec::new();

    let cible_n = get_next_room(position, Orientation::N);
    let ok_n = (depassement || dans_rectangle_exec(cible_n, largeur, hauteur))
        && !visited_map.est_visitee(cible_n);
    if ok_n {
        candidats.push(Orientation::N);
    }
    let cible_e = get_next_room(position, Orientation::E);
    let ok_e = (depassement || dans_rectangle_exec(cible_e, largeur, hauteur))
        && !visited_map.est_visitee(cible_e);
    if ok_e {
        candidats.push(Orientation::E);
    }
    let cible_s = get_next_room(position, Orientation::S);
    let ok_s = (depassement || dans_rectangle_exec(cible_s, largeur, hauteur))
        && !visited_map.est_visitee(cible_s);
    if ok_s {
        candidats.push(Orientation::S);
    }
    let cible_o = get_next_room(position, Orientation::O);
    let ok_o = (depassement || dans_rectangle_exec(cible_o, largeur, hauteur))
        && !visited_map.est_visitee(cible_o);
    if ok_o {
        candidats.push(Orientation::O);
    }

    proof {
        assert(ok_n == candidat(v, p, Orientation::N, li, hi, depassement));
        assert(ok_e == candidat(v, p, Orientation::E, li, hi, depassement));
        assert(ok_s == candidat(v, p, Orientation::S, li, hi, depassement));
        assert(ok_o == candidat(v, p, Orientation::O, li, hi, depassement));
        assert forall |j: int| 0 <= j < candidats@.len()
            implies candidat(v, p, #[trigger] candidats@[j], li, hi, depassement) by {
        }
    }
    if candidats.len() == 0 {
        proof {
            assert forall |d: Orientation| !candidat(v, p, d, li, hi, depassement) by {
                match d {
                    Orientation::N => {},
                    Orientation::S => {},
                    Orientation::E => {},
                    Orientation::O => {},
                }
            }
        }
        None
    } else {
        let i = tirer_indice(generateur, candidats.len());
        Some(candidats[i])
    }
}

// ------------------------------------------------------------------
// The generation context: grid, visited map and frontier together.
// ------------------------------------------------------------------

/// The scratch state of a running generation: the grid being carved, the
/// visited map, the frontier stack, the last direction taken, and the end
/// room once placed.  Discarded when generation ends.
struct Chantier {
    grille: Grille,
    visites: CarteVisites,
    suivants: Vec<(i32, i32)>,
    derniere: Option<Orientation>,
    /// The most recently visited cell: once one cell besides the origin is
    /// visited, it witnesses that the patch phase can always find a cell
    /// to stitch in.
    temoin: Ghost<(int, int)>,
    fin: Option<(i32, i32)>,
    restantes: usize,
    largeur: i32,
    hauteur: i32,
}

impl Chantier {
    spec fn l(&self) -> int {
        self.largeur as int
    }

    spec fn h(&self) -> int {
        self.hauteur as int
    }

    spec fn g(&self) -> Map<(int, int), VuePiece> {
        self.grille@
    }

    spec fn v(&self) -> Map<(int, int), bool> {
        self.visites@
    }

    spec fn fin_est(&self, c: (int, int)) -> bool {
        self.fin matches Some(cf) && vue_coord(cf) == c
    }

    /// The one door that may still be waiting for its twin: the door into
    /// the frontier cell, which receives the matching door when popped.
    spec fn excuse(&self, c: (int, int), d: Orientation) -> bool {
        &&& self.suivants@.len() == 1
        &&& self.derniere matches Some(dl) && d == dl
        &&& pas(c, d) == vue_coord(self.suivants@[0])
    }

    spec fn inv(&self) -> bool {
        &&& 2 <= self.largeur <= 30000
        &&& 2 <= self.hauteur <= 30000
        &&& self.grille.bien_formee()
        &&& self.visites.bien_formee()
        &&& forall |c: (int, int)| #![trigger self.v().contains_key(c)] #![trigger dans_rectangle(c, self.l(), self.h())]
            (self.v().contains_key(c) <==> dans_rectangle(c, self.l(), self.h()))
        &&& forall |c: (int, int)| #![trigger self.g().contains_key(c)] #![trigger dans_rectangle(c, self.l(), self.h())]
            (self.g().contains_key(c) <==> (dans_rectangle(c, self.l(), self.h()) || self.fin_est(c)))
        &&& self.fin matches Some(cf) ==> {
            let cfv = vue_coord(cf);
            &&& !dans_rectangle(cfv, self.l(), self.h())
            &&& -(self.l() / 2) - 1 <= cfv.0 <= self.l() / 2 + 1
            &&& -(self.h() / 2) - 1 <= cfv.1 <= self.h() / 2 + 1
            &&& self.g().contains_key(cfv)
            &&& self.g()[cfv].portes.len() == 1
        }
        &&& forall |c: (int, int)| #[trigger] self.g().contains_key(c)
            ==> (self.g()[c].typage == TypePiece::Debut <==> c == origine())
                && (self.g()[c].typage == TypePiece::Fin <==> self.fin_est(c))
        &&& visitee(self.v(), origine())
        &&& self.g().contains_key(origine()) && self.g()[origine()].portes.len() == 1
        &&& forall |c: (int, int)| #[trigger] self.g().contains_key(c)
            ==> self.g()[c].portes.no_duplicates()
        &&& forall |c: (int, int)| #[trigger] dans_rectangle(c, self.l(), self.h())
            ==> (visitee(self.v(), c) ==> self.g()[c].portes.len() >= 1)
                && (!visitee(self.v(), c) ==> self.g()[c].portes.len() == 0)
        &&& forall |c: (int, int), d: Orientation| #[trigger] porte_la(self.g(), c, d)
            ==> porte_la(self.g(), pas(c, d), inverse(d)) || self.excuse(c, d)
        &&& self.suivants@.len() <= 1
        &&& self.suivants@.len() == 1 ==> {
            let t = vue_coord(self.suivants@[0]);
            self.derniere matches Some(dl) && {
                let p = pas(t, inverse(dl));
                &&& dans_rectangle(t, self.l(), self.h())
                &&& !visitee(self.v(), t)
                &&& visitee(self.v(), p)
                &&& porte_la(self.g(), p, dl)
            }
        }
        &&& forall |c: (int, int)| #[trigger] visitee(self.v(), c)
            ==> accessible(self.g(), origine(), c)
        &&& self.fin matches Some(cf) ==> accessible(self.g(), origine(), vue_coord(cf))
        &&& self.restantes == self.visites.compte()
        &&& self.suivants@.len() == 0 && self.restantes > 0
            ==> visitee(self.v(), self.temoin@) && self.temoin@ != origine()
    }

    /// Builds the context and performs the seed phase: the origin becomes
    /// the start room with one random door, and the door's target becomes
    /// the frontier.
    fn nouveau(grille: Grille, largeur: i32, hauteur: i32, generateur: &mut rand::rngs::StdRng) -> (r: Chantier)
        requires
            2 <= largeur <= 30000,
            2 <= hauteur <= 30000,
            grille.bien_formee(),
            grille_vierge(grille@, largeur as int, hauteur as int),
        ensures
            r.inv(),
            r.largeur == largeur,
            r.hauteur == hauteur,
    {
        let mut grille = grille;
        let ghost g0 = grille@;
        let visites = CarteVisites::nouvelle(largeur, hauteur);
        let restantes = visites.compter_non_visitees();
        let ghost v0 = visites@;
        let ghost li = largeur as int;
        let ghost hi = hauteur as int;
        let origine_exec = (0i32, 0i32);
        proof {
            assert(dans_rectangle(origine(), li, hi));
        }
        let depart = random_orientation(origine_exec, &visites, hauteur, largeur, false, generateur);
        let d0 = match depart {
            Some(d) => d,
            None => {
                proof {
                    assert(candidat(v0, vue_coord(origine_exec), Orientation::N, li, hi, false)) by {
                        assert(pas((0int, 0int), Orientation::N) == (0int, -1int));
                        assert(hi / 2 >= 1);
                        assert(dans_rectangle((0int, -1int), li, hi));
                        assert(!visitee(v0, (0int, -1int)));
                    }
                    assert(!candidat(v0, vue_coord(origine_exec), Orientation::N, li, hi, false));
                }
                unreached()
            }
        };
        grille.definir_typage(origine_exec, TypePiece::Debut);
        let ghost g1 = grille@;
        grille.ajouter_porte(origine_exec, d0);
        let ghost g2 = grille@;
        let mut visites = visites;
        proof {
            visites.lemme_compte_positif(origine());
        }
        visites.marquer(origine_exec);
        let restantes = restantes - 1;
        let t0 = get_next_room(origine_exec, d0);
        let mut suivants: Vec<(i32, i32)> = Vec::new();
        suivants.push(t0);
        let r = Chantier {
            grille,
            visites,
            suivants,
            derniere: Some(d0),
            temoin: Ghost(origine()),
            fin: None,
            restantes,
            largeur,
            hauteur,
        };
        proof {
            let g = r.g();
            let v = r.v();
            // the two writes kept every key and touched only the origin
            assert(forall |c: (int, int)| #[trigger] g.contains_key(c)
                <==> dans_rectangle(c, li, hi));
            assert(g[origine()].typage == TypePiece::Debut);
            assert(g0.contains_key(origine()));
            assert(g0[origine()].portes.len() == 0);
            assert(g1.contains_key(origine()));
            assert(g1[origine()].portes.len() == 0);
            assert(!g1[origine()].portes.contains(d0));
            assert(g[origine()].portes == g1[origine()].portes.push(d0));
            assert(g[origine()].portes.len() == 1);
            assert(g[origine()].portes[0] == d0);
            assert(g[origine()].portes.no_duplicates());
            // roles
            assert forall |c: (int, int)| #[trigger] g.contains_key(c)
                implies (g[c].typage == TypePiece::Debut <==> c == origine())
                    && (g[c].typage == TypePiece::Fin <==> r.fin_est(c)) by {
                if c != origine() {
                    assert(g[c].typage == TypePiece::Normal);
                }
            }
            // visited facts
            assert(vue_coord(t0) == pas(origine(), d0));
            assert(vue_coord(t0) != origine());
            assert(visitee(v, origine()));
            assert(!visitee(v, vue_coord(t0)));
            // doors of other rooms unchanged and empty
            assert forall |c: (int, int)| #[trigger] dans_rectangle(c, li, hi)
                implies (visitee(v, c) ==> g[c].portes.len() >= 1)
                    && (!visitee(v, c) ==> g[c].portes.len() == 0) by {
                if c != origine() {
                    assert(!visitee(v, c));
                    assert(g[c].portes.len() == 0);
                }
            }
            // bidirectionality modulo the pending door
            assert forall |c: (int, int), d: Orientation| #[trigger] porte_la(g, c, d)
                implies porte_la(g, pas(c, d), inverse(d)) || r.excuse(c, d) by {
                if c == origine() {
                    assert(g[c].portes[0] == d0);
                    assert(g[c].portes.contains(d));
                    let i = choose |i: int| 0 <= i < g[c].portes.len() && g[c].portes[i] == d;
                    assert(i == 0);
                    assert(d == d0);
                    assert(r.excuse(c, d));
                } else {
                    assert(g[c].portes.len() == 0);
                    assert(!porte_la(g, c, d));
                }
            }
            // pending link
            lemme_pas_inverse(origine(), d0);
            assert(porte_la(g, origine(), d0)) by {
                assert(g[origine()].portes[0] == d0);
            }
            // reachability
            lemme_accessible_refl(g, origine());
            assert forall |c: (int, int)| #[trigger] visitee(v, c)
                implies accessible(g, origine(), c) by {
                assert(c == origine());
            }
            assert(r.inv());
        }
        r
    }

    /// One depth-first carve step: pops the frontier cell, marks it
    /// visited, opens the door back toward the cell it was entered from,
    /// then draws one more direction and, when one qualifies, opens that
    /// door and pushes its target as the new frontier.
    fn creuser_un(&mut self, generateur: &mut rand::rngs::StdRng)
        requires
            old(self).inv(),
            old(self).suivants@.len() == 1,
        ensures
            final(self).inv(),
            final(self).restantes + 1 == old(self).restantes,
            final(self).largeur == old(self).largeur,
            final(self).hauteur == old(self).hauteur,
    {
        let ghost li = self.l();
        let ghost hi = self.h();
        let ghost g0 = self.g();
        let ghost v0 = self.v();
        let c = match self.suivants.pop() {
            Some(c) => c,
            None => unreached(),
        };
        let ghost tc = vue_coord(c);
        let dl = match self.derniere {
            Some(d) => d,
            None => unreached(),
        };
        proof {
            assert(dans_rectangle(tc, li, hi));
            assert(!visitee(v0, tc));
            assert(v0.contains_key(tc));
            lemme_pas_inverse(tc, dl);
        }
        let ghost p = pas(tc, inverse(dl));
        if self.visites.est_visitee(c) {
            // the frontier never holds a visited cell
            proof {
                assert(false);
            }
            return;
        }
        proof {
            self.visites.lemme_compte_positif(tc);
        }
        self.visites.marquer(c);
        self.restantes = self.restantes - 1;
        self.temoin = Ghost(tc);
        let retour = invert_orientation(dl);
        proof {
            assert(self.grille@.contains_key(tc));
            assert(g0[tc].portes.len() == 0);
        }
        self.grille.ajouter_porte(c, retour);
        let ghost g1 = self.grille@;
        let ghost v1 = self.visites@;
        proof {
            // the back door is the only door of the freshly visited cell
            assert(!g0[tc].portes.contains(retour));
            assert(g1[tc].portes == g0[tc].portes.push(retour));
            assert(g1[tc].portes.len() == 1);
            assert(g1[tc].portes[0] == retour);
            assert(g1[tc].portes.contains(retour));
            lemme_nodup_pousser(g0[tc].portes, retour);
            assert(tc != origine());
            assert(p != tc);
            assert(porte_la(g1, p, dl)) by {
                assert(g1[p] == g0[p]);
            }
            lemme_etend_porte(g0, tc, retour);
            // every visited cell stays reachable; the popped cell joins in
            assert forall |x: (int, int)| #[trigger] visitee(v1, x)
                implies accessible(g1, origine(), x) by {
                if x == tc {
                    lemme_accessible_monotone(g0, g1, origine(), p);
                    assert(relie(g1, p, tc)) by {
                        assert(g1[p].portes.contains(dl) && pas(p, dl) == tc);
                    }
                    lemme_accessible_pas(g1, origine(), p, tc);
                } else {
                    assert(visitee(v0, x));
                    lemme_accessible_monotone(g0, g1, origine(), x);
                }
            }
            match self.fin {
                Some(cf) => {
                    lemme_accessible_monotone(g0, g1, origine(), vue_coord(cf));
                }
                None => {}
            }
            // every door now has its matching twin
            assert forall |cx: (int, int), dx: Orientation| #[trigger] porte_la(g1, cx, dx)
                implies porte_la(g1, pas(cx, dx), inverse(dx)) by {
                if cx == tc {
                    let i = choose |i: int| 0 <= i < g1[tc].portes.len() && g1[tc].portes[i] == dx;
                    assert(dx == retour);
                    assert(pas(tc, retour) == p);
                    assert(inverse(retour) == dl);
                } else {
                    assert(g1[cx] == g0[cx]);
                    assert(porte_la(g0, cx, dx));
                    if porte_la(g0, pas(cx, dx), inverse(dx)) {
                        let y = pas(cx, dx);
                        if y == tc {
                            assert(false);
                        } else {
                            assert(g1[y] == g0[y]);
                        }
                    } else {
                        assert(old(self).excuse(cx, dx));
                        assert(dx == dl);
                        assert(pas(cx, dx) == tc);
                        lemme_pas_inverse(cx, dx);
                        assert(pas(pas(cx, dx), inverse(dx)) == cx);
                        assert(cx == pas(tc, inverse(dl)));
                        assert(porte_la(g1, tc, retour));
                        assert(inverse(dx) == retour);
                    }
                }
            }
            // door counts still fit the visited map
            assert forall |x: (int, int)| #[trigger] dans_rectangle(x, li, hi)
                implies (visitee(v1, x) ==> g1[x].portes.len() >= 1)
                    && (!visitee(v1, x) ==> g1[x].portes.len() == 0) by {
                if x != tc {
                    assert(g1[x] == g0[x]);
                    assert(visitee(v1, x) == visitee(v0, x));
                }
            }
            assert(g1[origine()] == g0[origine()]);
        }
        let suite = random_orientation(c, &self.visites, self.hauteur, self.largeur, false, generateur);
        match suite {
            Some(d2) => {
                let t2 = get_next_room(c, d2);
                let ghost t2v = vue_coord(t2);
                proof {
                    assert(candidat(v1, tc, d2, li, hi, false));
                    assert(dans_rectangle(t2v, li, hi));
                    assert(!visitee(v1, t2v));
                    assert(v1.contains_key(t2v));
                    if d2 == retour {
                        assert(pas(tc, d2) == p);
                        assert(visitee(v1, p)) by {
                            assert(p != tc);
                            assert(visitee(v0, p));
                        }
                        assert(false);
                    }
                    assert(!g1[tc].portes.contains(d2)) by {
                        if g1[tc].portes.contains(d2) {
                            let i = choose |i: int| 0 <= i < g1[tc].portes.len()
                                && g1[tc].portes[i] == d2;
                            assert(d2 == retour);
                        }
                    }
                }
                if !self.visites.est_visitee(t2) {
                    self.grille.ajouter_porte(c, d2);
                    self.suivants.push(t2);
                    self.derniere = Some(d2);
                    proof {
                        let g2 = self.grille@;
                        assert(g2[tc].portes == g1[tc].portes.push(d2));
                        lemme_nodup_pousser(g1[tc].portes, d2);
                        assert(g2[tc].portes.len() == 2);
                        assert(g2[tc].portes[0] == retour && g2[tc].portes[1] == d2);
                        assert(g2[tc].portes.contains(d2)) by {
                            assert(g2[tc].portes[1] == d2);
                        }
                        assert(g2[tc].portes.contains(retour)) by {
                            assert(g2[tc].portes[0] == retour);
                        }
                        lemme_etend_porte(g1, tc, d2);
                        assert(t2v != tc);
                        assert(g2[t2v] == g1[t2v]);
                        lemme_pas_inverse(tc, d2);
                        // reachability carries over
                        assert forall |x: (int, int)| #[trigger] visitee(v1, x)
                            implies accessible(g2, origine(), x) by {
                            lemme_accessible_monotone(g1, g2, origine(), x);
                        }
                        match self.fin {
                            Some(cf) => {
                                lemme_accessible_monotone(g1, g2, origine(), vue_coord(cf));
                            }
                            None => {}
                        }
                        // doors match, except the new door into the frontier
                        assert forall |cx: (int, int), dx: Orientation| #[trigger] porte_la(g2, cx, dx)
                            implies porte_la(g2, pas(cx, dx), inverse(dx)) || self.excuse(cx, dx) by {
                            if cx == tc {
                                let i = choose |i: int| 0 <= i < g2[tc].portes.len()
                                    && g2[tc].portes[i] == dx;
                                if i == 0 {
                                    assert(dx == retour);
                                    assert(porte_la(g1, tc, retour));
                                    assert(porte_la(g1, p, dl));
                                    assert(p != tc);
                                    assert(g2[p] == g1[p]);
                                    assert(porte_la(g2, p, dl));
                                } else {
                                    assert(dx == d2);
                                    assert(self.excuse(tc, d2));
                                }
                            } else {
                                assert(g2[cx] == g1[cx]);
                                assert(porte_la(g1, cx, dx));
                                assert(porte_la(g1, pas(cx, dx), inverse(dx)));
                                let y = pas(cx, dx);
                                if y == tc {
                                    lemme_contient_pousser(g1[tc].portes, d2, inverse(dx));
                                } else {
                                    assert(g2[y] == g1[y]);
                                }
                            }
                        }
                        // door counts still fit the visited map
                        assert forall |x: (int, int)| #[trigger] dans_rectangle(x, li, hi)
                            implies (visitee(v1, x) ==> g2[x].portes.len() >= 1)
                                && (!visitee(v1, x) ==> g2[x].portes.len() == 0) by {
                            if x != tc {
                                assert(g2[x] == g1[x]);
                            }
                        }
                        assert(g2[origine()] == g1[origine()]);
                        assert(visitee(v1, tc));
                        assert(porte_la(g2, tc, d2));
                        assert(self.inv());
                    }
                }
            }
            None => {
                proof {
                    assert(visitee(v1, tc) && tc != origine());
                    assert(self.inv());
                }
            }
        }
    }

    /// The patch phase: uniformly picks an unvisited cell with a visited
    /// neighbour other than the start room, stitches it in with a pair of
    /// matching doors, then attempts one more door out of it.  When that
    /// extra door leaves the rectangle — allowed only while no end room
    /// exists — the end room is created behind it; when it stays inside,
    /// its target becomes the new frontier.  Such a cell always exists:
    /// the rectangle without the start room stays connected, so the
    /// unvisited region always touches a visited room other than the
    /// start.
    fn raccorder(&mut self, generateur: &mut rand::rngs::StdRng)
        requires
            old(self).inv(),
            old(self).suivants@.len() == 0,
            old(self).restantes > 0,
        ensures
            final(self).inv(),
            final(self).restantes + 1 == old(self).restantes,
            final(self).largeur == old(self).largeur,
            final(self).hauteur == old(self).hauteur,
    {
        let ghost li = self.l();
        let ghost hi = self.h();
        let candidats = self.chercher_raccordables();
        if candidats.len() == 0 {
            proof {
                self.visites.lemme_temoin_non_visitee();
                let restant = choose |c: (int, int)| self.v().contains_key(c) && !self.v()[c];
                lemme_raccordable_existe(self.v(), li, hi, self.temoin@, restant);
            }
            unreached()
        } else {
            let idx = tirer_indice(generateur, candidats.len());
            let cnew = candidats[idx];
            self.raccorder_cellule(cnew);
            self.pousser_ou_terminer(cnew, generateur);
        }
    }

    /// Lists the unvisited cells that have a visited neighbour other than
    /// the start room.
    fn chercher_raccordables(&self) -> (r: Vec<(i32, i32)>)
        requires
            self.inv(),
        ensures
            forall |j: int| 0 <= j < r@.len()
                ==> candidat_raccord(self.v(), vue_coord(#[trigger] r@[j]), self.l(), self.h()),
            r@.len() == 0 ==> forall |c: (int, int)|
                !candidat_raccord(self.v(), c, self.l(), self.h()),
    {
        let ghost li = self.l();
        let ghost hi = self.h();
        let ghost v0 = self.v();
        let non_visitees = self.visites.celles_non_visitees();
        let mut candidats: Vec<(i32, i32)> = Vec::new();
        let mut i: usize = 0;
        while i < non_visitees.len()
            invariant
                i <= non_visitees@.len(),
                self.inv(),
                v0 == self.v(),
                li == self.l() && hi == self.h(),
                2 <= self.largeur <= 30000 && 2 <= self.hauteur <= 30000,
                forall |j: int| 0 <= j < non_visitees@.len()
                    ==> v0.contains_key(vue_coord(#[trigger] non_visitees@[j]))
                        && !v0[vue_coord(non_visitees@[j])],
                forall |j: int| 0 <= j < candidats@.len()
                    ==> candidat_raccord(v0, vue_coord(#[trigger] candidats@[j]), li, hi),
                forall |k: int| 0 <= k < i
                    && candidat_raccord(v0, vue_coord(#[trigger] non_visitees@[k]), li, hi)
                    ==> contient_coord(candidats@, vue_coord(non_visitees@[k])),
            decreases non_visitees@.len() - i,
        {
            let nc = non_visitees[i];
            proof {
                assert(v0.contains_key(vue_coord(nc)));
                assert(dans_rectangle(vue_coord(nc), li, hi));
            }
            let cn_o = get_next_room(nc, Orientation::O);
            let ok_o = self.visites.est_visitee(cn_o) && !(cn_o.0 == 0 && cn_o.1 == 0);
            let cn_e = get_next_room(nc, Orientation::E);
            let ok_e = self.visites.est_visitee(cn_e) && !(cn_e.0 == 0 && cn_e.1 == 0);
            let cn_n = get_next_room(nc, Orientation::N);
            let ok_n = self.visites.est_visitee(cn_n) && !(cn_n.0 == 0 && cn_n.1 == 0);
            let cn_s = get_next_room(nc, Orientation::S);
            let ok_s = self.visites.est_visitee(cn_s) && !(cn_s.0 == 0 && cn_s.1 == 0);
            if ok_o || ok_e || ok_n || ok_s {
                let ghost r0 = candidats@;
                candidats.push(nc);
                proof {
                    assert(candidat_raccord(v0, vue_coord(nc), li, hi)) by {
                        if ok_o {
                            assert(visitee(v0, pas(vue_coord(nc), Orientation::O))
                                && pas(vue_coord(nc), Orientation::O) != origine());
                        } else if ok_e {
                            assert(visitee(v0, pas(vue_coord(nc), Orientation::E))
                                && pas(vue_coord(nc), Orientation::E) != origine());
                        } else if ok_n {
                            assert(visitee(v0, pas(vue_coord(nc), Orientation::N))
                                && pas(vue_coord(nc), Orientation::N) != origine());
                        } else {
                            assert(visitee(v0, pas(vue_coord(nc), Orientation::S))
                                && pas(vue_coord(nc), Orientation::S) != origine());
                        }
                    }
                    assert forall |j: int| 0 <= j < candidats@.len()
                        implies candidat_raccord(v0, vue_coord(#[trigger] candidats@[j]), li, hi) by {
                        if j < candidats@.len() - 1 {
                            assert(candidats@[j] == r0[j]);
                        } else {
                            assert(candidats@[j] == nc);
                        }
                    }
                    assert forall |k: int| 0 <= k < i as int + 1
                        && candidat_raccord(v0, vue_coord(#[trigger] non_visitees@[k]), li, hi)
                        implies contient_coord(candidats@, vue_coord(non_visitees@[k])) by {
                        if k < i as int {
                            let j = choose |j: int| 0 <= j < r0.len()
                                && vue_coord(#[trigger] r0[j]) == vue_coord(non_visitees@[k]);
                            assert(candidats@[j] == r0[j]);
                            assert(vue_coord(candidats@[j]) == vue_coord(non_visitees@[k]));
                        } else {
                            assert(vue_coord(candidats@[candidats@.len() - 1]) == vue_coord(nc));
                        }
                    }
                }
            } else {
                proof {
                    assert(!candidat_raccord(v0, vue_coord(nc), li, hi)) by {
                        if candidat_raccord(v0, vue_coord(nc), li, hi) {
                            let d = choose |d: Orientation|
                                #[trigger] visitee(v0, pas(vue_coord(nc), d))
                                && pas(vue_coord(nc), d) != origine();
                            match d {
                                Orientation::N => {},
                                Orientation::S => {},
                                Orientation::E => {},
                                Orientation::O => {},
                            }
                        }
                    }
                }
            }
            i += 1;
        }
        proof {
            if candidats@.len() == 0 {
                assert forall |c: (int, int)| !candidat_raccord(v0, c, li, hi) by {
                    if candidat_raccord(v0, c, li, hi) {
                        assert(v0.contains_key(c) && !v0[c]);
                        assert(contient_coord(non_visitees@, c));
                        let k = choose |k: int| 0 <= k < non_visitees@.len()
                            && vue_coord(#[trigger] non_visitees@[k]) == c;
                        assert(candidat_raccord(v0, vue_coord(non_visitees@[k]), li, hi));
                        assert(contient_coord(candidats@, c));
                    }
                }
            }
        }
        candidats
    }

    /// Stitches the unvisited cell `cnew` to the carved region: its first
    /// visited neighbour other than the start room gets the door toward it,
    /// it gets the door back, and it becomes visited.
    #[verifier::rlimit(60)]
    fn raccorder_cellule(&mut self, cnew: (i32, i32))
        requires
            old(self).inv(),
            old(self).suivants@.len() == 0,
            candidat_raccord(old(self).v(), vue_coord(cnew), old(self).l(), old(self).h()),
        ensures
            final(self).inv(),
            final(self).suivants@.len() == 0,
            final(self).restantes + 1 == old(self).restantes,
            final(self).largeur == old(self).largeur,
            final(self).hauteur == old(self).hauteur,
            final(self).fin == old(self).fin,
            visitee(final(self).v(), vue_coord(cnew)),
    {
        let ghost li = self.l();
        let ghost hi = self.h();
        let ghost g0 = self.g();
        let ghost v0 = self.v();
        let ghost cv = vue_coord(cnew);
        proof {
            assert(candidat_raccord(v0, cv, li, hi));
            assert(dans_rectangle(cv, li, hi));
            assert(!visitee(v0, cv));
            assert(g0[cv].portes.len() == 0);
            self.visites.lemme_compte_positif(cv);
        }
        // find a visited neighbour other than the start room
        let vn_o = get_next_room(cnew, Orientation::O);
        let ok_o = self.visites.est_visitee(vn_o) && !(vn_o.0 == 0 && vn_o.1 == 0);
        let vn_e = get_next_room(cnew, Orientation::E);
        let ok_e = self.visites.est_visitee(vn_e) && !(vn_e.0 == 0 && vn_e.1 == 0);
        let vn_n = get_next_room(cnew, Orientation::N);
        let ok_n = self.visites.est_visitee(vn_n) && !(vn_n.0 == 0 && vn_n.1 == 0);
        let vn_s = get_next_room(cnew, Orientation::S);
        let ok_s = self.visites.est_visitee(vn_s) && !(vn_s.0 == 0 && vn_s.1 == 0);
        let (dir, voisin) = if ok_o {
            (Orientation::O, vn_o)
        } else if ok_e {
            (Orientation::E, vn_e)
        } else if ok_n {
            (Orientation::N, vn_n)
        } else if ok_s {
            (Orientation::S, vn_s)
        } else {
            proof {
                let d = choose |d: Orientation|
                    #[trigger] visitee(v0, pas(cv, d)) && pas(cv, d) != origine();
                match d {
                    Orientation::N => {},
                    Orientation::S => {},
                    Orientation::E => {},
                    Orientation::O => {},
                }
            }
            unreached()
        };
        let ghost nv = vue_coord(voisin);
        let retour = invert_orientation(dir);
        proof {
            assert(nv == pas(cv, dir));
            assert(visitee(v0, nv));
            assert(nv != origine());
            assert(nv != cv);
            assert(dans_rectangle(nv, li, hi));
            lemme_pas_inverse(cv, dir);
            // the neighbour has no door toward the unvisited cell yet
            if porte_la(g0, nv, retour) {
                assert(porte_la(g0, pas(nv, retour), inverse(retour)));
                assert(pas(nv, retour) == cv);
                assert(g0[cv].portes.len() == 0);
                assert(false);
            }
            lemme_portes_bornees_sans(g0[nv].portes, retour);
            assert(g0[nv].portes.len() <= 3);
        }
        self.grille.ajouter_porte(voisin, retour);
        let ghost ga = self.grille@;
        proof {
            assert(ga[nv].portes == g0[nv].portes.push(retour));
            lemme_nodup_pousser(g0[nv].portes, retour);
            assert(ga[nv].portes.contains(retour)) by {
                assert(ga[nv].portes[ga[nv].portes.len() - 1] == retour);
            }
            assert(ga[cv] == g0[cv]);
            assert(!ga[cv].portes.contains(dir));
            lemme_etend_porte(g0, nv, retour);
        }
        self.grille.ajouter_porte(cnew, dir);
        let ghost gb = self.grille@;
        proof {
            assert(gb[cv].portes == g0[cv].portes.push(dir));
            assert(gb[cv].portes.len() == 1);
            assert(gb[cv].portes[0] == dir);
            assert(gb[cv].portes.contains(dir));
            lemme_nodup_pousser(g0[cv].portes, dir);
            assert(gb[nv] == ga[nv]);
            lemme_etend_porte(ga, cv, dir);
        }
        self.visites.marquer(cnew);
        self.restantes = self.restantes - 1;
        self.temoin = Ghost(cv);
        let ghost v1 = self.visites@;
        proof {
            // the stitched cell joins the reachable region
            assert forall |x: (int, int)| #[trigger] visitee(v1, x)
                implies accessible(gb, origine(), x) by {
                if x == cv {
                    lemme_accessible_monotone(g0, ga, origine(), nv);
                    lemme_accessible_monotone(ga, gb, origine(), nv);
                    assert(relie(gb, nv, cv)) by {
                        assert(gb[nv].portes.contains(retour) && pas(nv, retour) == cv);
                    }
                    lemme_accessible_pas(gb, origine(), nv, cv);
                } else {
                    assert(visitee(v0, x));
                    lemme_accessible_monotone(g0, ga, origine(), x);
                    lemme_accessible_monotone(ga, gb, origine(), x);
                }
            }
            match self.fin {
                Some(cf) => {
                    lemme_accessible_monotone(g0, ga, origine(), vue_coord(cf));
                    lemme_accessible_monotone(ga, gb, origine(), vue_coord(cf));
                }
                None => {}
            }
            // both new doors match each other; the old ones keep their twins
            assert forall |cx: (int, int), dx: Orientation| #[trigger] porte_la(gb, cx, dx)
                implies porte_la(gb, pas(cx, dx), inverse(dx)) by {
                if cx == cv {
                    let k = choose |k: int| 0 <= k < gb[cv].portes.len() && gb[cv].portes[k] == dx;
                    assert(dx == dir);
                    assert(inverse(dir) == retour);
                } else if cx == nv {
                    lemme_avec_porte_contient(g0[nv], retour, dx);
                    if dx == retour {
                        assert(pas(nv, retour) == cv);
                        assert(inverse(retour) == dir) by {
                            lemme_pas_inverse(cv, dir);
                        }
                    } else {
                        assert(porte_la(g0, nv, dx));
                        assert(porte_la(g0, pas(nv, dx), inverse(dx)));
                        let y = pas(nv, dx);
                        if y == cv {
                            assert(false);
                        } else if y == nv {
                            lemme_contient_pousser(g0[nv].portes, retour, inverse(dx));
                        } else {
                            assert(gb[y] == g0[y]);
                        }
                    }
                } else {
                    assert(gb[cx] == g0[cx]);
                    assert(porte_la(g0, cx, dx));
                    assert(porte_la(g0, pas(cx, dx), inverse(dx)));
                    let y = pas(cx, dx);
                    if y == cv {
                        assert(false);
                    } else if y == nv {
                        lemme_contient_pousser(g0[nv].portes, retour, inverse(dx));
                    } else {
                        assert(gb[y] == g0[y]);
                    }
                }
            }
            // door counts still fit the visited map
            assert forall |x: (int, int)| #[trigger] dans_rectangle(x, li, hi)
                implies (visitee(v1, x) ==> gb[x].portes.len() >= 1)
                    && (!visitee(v1, x) ==> gb[x].portes.len() == 0) by {
                if x != cv && x != nv {
                    assert(gb[x] == g0[x]);
                    assert(visitee(v1, x) == visitee(v0, x));
                } else if x == nv {
                    assert(visitee(v1, nv));
                }
            }
            assert(cv != origine());
            assert(gb[origine()] == g0[origine()]);
            assert(visitee(v1, cv) && cv != origine());
            assert(self.inv());
        }
    }

    /// After a cell was stitched in, attempts one more door out of it.
    /// Leaving the rectangle is allowed only while no end room exists; the
    /// end room is then created behind that door.  A target inside the
    /// rectangle becomes the new frontier instead.
    #[verifier::rlimit(60)]
    fn pousser_ou_terminer(&mut self, cnew: (i32, i32), generateur: &mut rand::rngs::StdRng)
        requires
            old(self).inv(),
            old(self).suivants@.len() == 0,
            visitee(old(self).v(), vue_coord(cnew)),
            vue_coord(cnew) != origine(),
        ensures
            final(self).inv(),
            final(self).restantes == old(self).restantes,
            final(self).largeur == old(self).largeur,
            final(self).hauteur == old(self).hauteur,
    {
        let ghost li = self.l();
        let ghost hi = self.h();
        let ghost gb = self.g();
        let ghost v1 = self.v();
        let ghost cv = vue_coord(cnew);
        proof {
            assert(dans_rectangle(cv, li, hi));
        }
        let deb = self.fin.is_none();
        let suite = random_orientation(cnew, &self.visites, self.hauteur, self.largeur, deb, generateur);
        let d2 = match suite {
            None => {
                return;
            }
            Some(d2) => d2,
        };
        let t2 = get_next_room(cnew, d2);
        let ghost t2v = vue_coord(t2);
        proof {
            assert(candidat(v1, cv, d2, li, hi, deb));
            assert(t2v == pas(cv, d2));
            assert(!visitee(v1, t2v));
            lemme_pas_inverse(cv, d2);
            // the cell has no door toward the chosen target yet
            if porte_la(gb, cv, d2) {
                assert(porte_la(gb, t2v, inverse(d2)));
                if dans_rectangle(t2v, li, hi) {
                    assert(gb[t2v].portes.len() == 0);
                    assert(false);
                } else {
                    assert(self.fin_est(t2v));
                    assert(!deb);
                    assert(false);
                }
            }
            lemme_portes_bornees_sans(gb[cv].portes, d2);
            assert(gb[cv].portes.len() <= 3);
            assert(gb[cv].portes.len() >= 1);
        }
        if t2.0 < -(self.largeur / 2) || t2.0 > self.largeur / 2
            || t2.1 < -(self.hauteur / 2) || t2.1 > self.hauteur / 2 {
            // outside the rectangle: spawn the end room behind the door
            proof {
                assert(!dans_rectangle(t2v, li, hi));
                assert(deb);
                assert(self.fin is None);
            }
            self.creer_fin(cnew, d2);
        } else {
            // inside the rectangle: the target becomes the new frontier
            proof {
                assert(dans_rectangle(t2v, li, hi));
                assert(!visitee(v1, t2v));
                assert(t2v != cv);
                assert(gb[t2v].portes.len() == 0);
            }
            self.grille.ajouter_porte(cnew, d2);
            self.suivants.push(t2);
            self.derniere = Some(d2);
            proof {
                let gc = self.grille@;
                assert(gc[cv].portes == gb[cv].portes.push(d2));
                assert(gc[cv].portes.contains(d2)) by {
                    assert(gc[cv].portes[gc[cv].portes.len() - 1] == d2);
                }
                lemme_nodup_pousser(gb[cv].portes, d2);
                lemme_etend_porte(gb, cv, d2);
                assert(gc[t2v] == gb[t2v]);
                // reachability survives
                assert forall |x: (int, int)| #[trigger] visitee(v1, x)
                    implies accessible(gc, origine(), x) by {
                    lemme_accessible_monotone(gb, gc, origine(), x);
                }
                match self.fin {
                    Some(cf) => {
                        lemme_accessible_monotone(gb, gc, origine(), vue_coord(cf));
                    }
                    None => {}
                }
                // doors match, except the new door into the frontier
                assert forall |cx: (int, int), dx: Orientation| #[trigger] porte_la(gc, cx, dx)
                    implies porte_la(gc, pas(cx, dx), inverse(dx)) || self.excuse(cx, dx) by {
                    if cx == cv {
                        lemme_avec_porte_contient(gb[cv], d2, dx);
                        if dx == d2 {
                            assert(self.excuse(cv, d2));
                        } else {
                            assert(porte_la(gb, cv, dx));
                            assert(porte_la(gb, pas(cv, dx), inverse(dx)));
                            let y = pas(cv, dx);
                            if y == cv {
                                lemme_contient_pousser(gb[cv].portes, d2, inverse(dx));
                            } else {
                                assert(gc[y] == gb[y]);
                            }
                        }
                    } else {
                        assert(gc[cx] == gb[cx]);
                        assert(porte_la(gb, cx, dx));
                        assert(porte_la(gb, pas(cx, dx), inverse(dx)));
                        let y = pas(cx, dx);
                        if y == cv {
                            lemme_contient_pousser(gb[cv].portes, d2, inverse(dx));
                        } else {
                            assert(gc[y] == gb[y]);
                        }
                    }
                }
                // door counts still fit the visited map
                assert forall |x: (int, int)| #[trigger] dans_rectangle(x, li, hi)
                    implies (visitee(v1, x) ==> gc[x].portes.len() >= 1)
                        && (!visitee(v1, x) ==> gc[x].portes.len() == 0) by {
                    if x != cv {
                        assert(gc[x] == gb[x]);
                    }
                }
                assert(gc[origine()] == gb[origine()]);
                assert(visitee(v1, cv));
                assert(porte_la(gc, cv, d2));
                assert(self.inv());
            }
        }
    }

    /// Opens the door `d2` out of the rectangle from the visited cell
    /// `cnew` and creates the end room, with the one matching door, just
    /// behind it.
    #[verifier::rlimit(60)]
    fn creer_fin(&mut self, cnew: (i32, i32), d2: Orientation)
        requires
            old(self).inv(),
            old(self).suivants@.len() == 0,
            old(self).fin is None,
            visitee(old(self).v(), vue_coord(cnew)),
            vue_coord(cnew) != origine(),
            !dans_rectangle(pas(vue_coord(cnew), d2), old(self).l(), old(self).h()),
            !porte_la(old(self).g(), vue_coord(cnew), d2),
        ensures
            final(self).inv(),
            final(self).fin is Some,
            final(self).suivants == old(self).suivants,
            final(self).restantes == old(self).restantes,
            final(self).largeur == old(self).largeur,
            final(self).hauteur == old(self).hauteur,
    {
        let ghost li = self.l();
        let ghost hi = self.h();
        let ghost gb = self.g();
        let ghost v1 = self.v();
        let ghost cv = vue_coord(cnew);
        let t2 = get_next_room(cnew, d2);
        let ghost t2v = vue_coord(t2);
        proof {
            assert(dans_rectangle(cv, li, hi));
            assert(t2v == pas(cv, d2));
            assert(!dans_rectangle(t2v, li, hi));
            assert(!gb.contains_key(t2v));
            lemme_pas_inverse(cv, d2);
            lemme_portes_bornees_sans(gb[cv].portes, d2);
            assert(gb[cv].portes.len() <= 3);
            assert(gb[cv].portes.len() >= 1);
        }
            self.grille.ajouter_porte(cnew, d2);
            let ghost gc = self.grille@;
            let mut portes_fin: Vec<Orientation> = Vec::new();
            portes_fin.push(invert_orientation(d2));
            let piece_fin = match Piece::new(TypePiece::Fin, portes_fin) {
                Ok(p) => p,
                Err(_) => unreached(),
            };
            proof {
                assert(gc[cv].portes == gb[cv].portes.push(d2));
                assert(gc[cv].portes.len() <= 4);
                assert(gc[cv].portes.contains(d2)) by {
                    assert(gc[cv].portes[gc[cv].portes.len() - 1] == d2);
                }
                lemme_nodup_pousser(gb[cv].portes, d2);
                lemme_etend_porte(gb, cv, d2);
                assert(!gc.contains_key(t2v));
                assert(piece_fin@.typage == TypePiece::Fin);
                assert(piece_fin@.portes.len() == 1);
                assert(piece_fin@.portes[0] == inverse(d2));
                assert(piece_fin@.portes.contains(inverse(d2)));
                assert(piece_fin@.portes.no_duplicates());
            }
            self.grille.inserer(t2, piece_fin);
            self.fin = Some(t2);
            proof {
                let gf = self.grille@;
                lemme_etend_insertion(gc, t2v, piece_fin@);
                assert(gf[t2v] == piece_fin@);
                assert(gf[cv] == gc[cv]);
                // reachability: everything old survives, the end room joins
                assert forall |x: (int, int)| #[trigger] visitee(v1, x)
                    implies accessible(gf, origine(), x) by {
                    lemme_accessible_monotone(gb, gc, origine(), x);
                    lemme_accessible_monotone(gc, gf, origine(), x);
                }
                assert(accessible(gf, origine(), t2v)) by {
                    assert(visitee(v1, cv));
                    assert(accessible(gf, origine(), cv));
                    assert(relie(gf, cv, t2v)) by {
                        assert(gf[cv].portes.contains(d2) && pas(cv, d2) == t2v);
                    }
                    lemme_accessible_pas(gf, origine(), cv, t2v);
                }
                // every door keeps or gains its twin
                assert forall |cx: (int, int), dx: Orientation| #[trigger] porte_la(gf, cx, dx)
                    implies porte_la(gf, pas(cx, dx), inverse(dx)) by {
                    if cx == t2v {
                        let k = choose |k: int| 0 <= k < gf[t2v].portes.len()
                            && gf[t2v].portes[k] == dx;
                        assert(dx == inverse(d2));
                        assert(pas(t2v, inverse(d2)) == cv);
                        assert(inverse(inverse(d2)) == d2);
                        assert(porte_la(gf, cv, d2));
                    } else if cx == cv {
                        lemme_avec_porte_contient(gb[cv], d2, dx);
                        if dx == d2 {
                            assert(gf[t2v].portes.contains(inverse(d2)));
                            assert(porte_la(gf, t2v, inverse(d2)));
                        } else {
                            assert(porte_la(gb, cv, dx));
                            assert(porte_la(gb, pas(cv, dx), inverse(dx)));
                            let y = pas(cv, dx);
                            assert(y != t2v) by {
                                assert(gb.contains_key(y));
                            }
                            if y == cv {
                                lemme_contient_pousser(gb[cv].portes, d2, inverse(dx));
                            } else {
                                assert(gf[y] == gb[y]);
                            }
                        }
                    } else {
                        assert(gf[cx] == gb[cx]);
                        assert(porte_la(gb, cx, dx));
                        assert(porte_la(gb, pas(cx, dx), inverse(dx)));
                        let y = pas(cx, dx);
                        assert(y != t2v) by {
                            assert(gb.contains_key(y));
                        }
                        if y == cv {
                            lemme_contient_pousser(gb[cv].portes, d2, inverse(dx));
                        } else {
                            assert(gf[y] == gb[y]);
                        }
                    }
                }
                // roles: the end role appears exactly at the new room
                assert forall |c: (int, int)| #[trigger] gf.contains_key(c)
                    implies (gf[c].typage == TypePiece::Debut <==> c == origine())
                        && (gf[c].typage == TypePiece::Fin <==> self.fin_est(c)) by {
                    if c == cv {
                        assert(gf[cv].typage == gb[cv].typage);
                    } else if c != t2v {
                        assert(gf[c] == gb[c]);
                        assert(gb.contains_key(c));
                    }
                }
                // door counts still fit the visited map
                assert forall |x: (int, int)| #[trigger] dans_rectangle(x, li, hi)
                    implies (visitee(v1, x) ==> gf[x].portes.len() >= 1)
                        && (!visitee(v1, x) ==> gf[x].portes.len() == 0) by {
                    if x != cv {
                        assert(x != t2v);
                        assert(gf[x] == gb[x]);
                    }
                }
                assert(gf[origine()] == gb[origine()]);
                assert(-(li / 2) - 1 <= t2v.0 <= li / 2 + 1
                    && -(hi / 2) - 1 <= t2v.1 <= hi / 2 + 1);
                assert(visitee(v1, cv) && cv != origine());
                assert(self.inv());
            }
    }

    /// When the depth-first carve exhausts the rectangle without the patch
    /// phase ever growing out of it, no end room exists yet: one is placed
    /// behind a uniformly random cell of the east edge, whose eastward
    /// neighbour always lies outside the rectangle.
    fn placer_fin(&mut self, generateur: &mut rand::rngs::StdRng)
        requires
            old(self).inv(),
            old(self).suivants@.len() == 0,
            old(self).restantes == 0,
            old(self).fin is None,
        ensures
            final(self).inv(),
            final(self).suivants@.len() == 0,
            final(self).restantes == 0,
            final(self).fin is Some,
            final(self).largeur == old(self).largeur,
            final(self).hauteur == old(self).hauteur,
    {
        let ghost li = self.l();
        let ghost hi = self.h();
        let ghost gb = self.g();
        proof {
            self.visites.lemme_compte_nul();
        }
        let cote = ((self.hauteur / 2) * 2 + 1) as usize;
        let idx = tirer_indice(generateur, cote);
        let y = (idx as i32) - self.hauteur / 2;
        let cnew = (self.largeur / 2, y);
        let ghost cv = vue_coord(cnew);
        proof {
            assert(dans_rectangle(cv, li, hi));
            assert(self.v().contains_key(cv));
            assert(visitee(self.v(), cv));
            assert(cv != origine());
            assert(pas(cv, Orientation::E) == (li / 2 + 1, cv.1));
            assert(!dans_rectangle(pas(cv, Orientation::E), li, hi));
            if porte_la(gb, cv, Orientation::E) {
                assert(porte_la(gb, pas(cv, Orientation::E), inverse(Orientation::E)));
                assert(gb.contains_key(pas(cv, Orientation::E)));
                assert(false);
            }
        }
        self.creer_fin(cnew, Orientation::E);
    }
}

/// Carves the doors of the maze.  A randomized depth-first walk opens
/// doors out of the start room; whenever it dead-ends, an orphaned cell
/// adjacent to the carved region is stitched in, possibly spawning the
/// end room outside the rectangle; if the whole rectangle is carved
/// before that happens, the end room is placed on the east edge.  The
/// grid comes back a valid maze: rooms cover the rectangle plus the end
/// room, roles are unique, door counts fit the roles, every door has its
/// matching twin, and every room is reachable from the start.
pub fn generer_portes(
    grille: Grille,
    largeur: i32,
    hauteur: i32,
    generateur: &mut rand::rngs::StdRng,
) -> (r: Grille)
    requires
        2 <= largeur <= 30000,
        2 <= hauteur <= 30000,
        grille.bien_formee(),
        grille_vierge(grille@, largeur as int, hauteur as int),
    ensures
        r.bien_formee(),
        labyrinthe_valide(r@, largeur as int, hauteur as int),
{
    let ghost li = largeur as int;
    let ghost hi = hauteur as int;
    let mut chantier = Chantier::nouveau(grille, largeur, hauteur, generateur);
    while chantier.restantes > 0
        invariant
            chantier.inv(),
            chantier.largeur == largeur,
            chantier.hauteur == hauteur,
        decreases chantier.restantes,
    {
        if chantier.suivants.len() > 0 {
            chantier.creuser_un(generateur);
        } else {
            chantier.raccorder(generateur);
        }
    }
    proof {
        // with nothing left to visit, the frontier must be empty
        if chantier.suivants@.len() == 1 {
            let t = vue_coord(chantier.suivants@[0]);
            assert(!visitee(chantier.v(), t));
            assert(chantier.v().contains_key(t));
            chantier.visites.lemme_compte_positif(t);
            assert(false);
        }
    }
    if chantier.fin.is_none() {
        chantier.placer_fin(generateur);
    }
    proof {
        let g = chantier.g();
        chantier.visites.lemme_compte_nul();
        let cf = match chantier.fin {
            Some(cfe) => vue_coord(cfe),
            None => origine(),
        };
        assert(chantier.fin is Some);
        assert(portes_bidirectionnelles(g)) by {
            assert forall |c: (int, int), d: Orientation| #[trigger] porte_la(g, c, d)
                implies porte_la(g, pas(c, d), inverse(d)) by {
                assert(!chantier.excuse(c, d));
            }
        }
        assert(roles_corrects(g, cf));
        assert(comptes_portes_corrects(g)) by {
            assert forall |c: (int, int)| #[trigger] g.contains_key(c)
                implies g[c].portes.no_duplicates()
                    && crate::piece::nombre_portes_valide(g[c].typage, g[c].portes.len() as int) by {
                lemme_portes_bornees(g[c].portes);
                if c == origine() {
                } else if c == cf {
                } else {
                    assert(dans_rectangle(c, li, hi));
                    assert(visitee(chantier.v(), c));
                    assert(g[c].portes.len() >= 1);
                    assert(g[c].typage == TypePiece::Normal);
                }
            }
        }
        assert(tout_accessible(g)) by {
            assert forall |c: (int, int)| #[trigger] g.contains_key(c)
                implies accessible(g, origine(), c) by {
                if c == cf {
                } else {
                    assert(dans_rectangle(c, li, hi));
                    assert(visitee(chantier.v(), c));
                }
            }
        }
        assert(labyrinthe_valide_avec_fin(g, li, hi, cf));
    }
    chantier.grille
}

} // verus!
