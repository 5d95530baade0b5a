//! The mathematical model of a finished maze.
//!
//! A maze is valid when its rooms cover the rectangle plus one end room
//! just outside it, roles are unique, door counts suit the roles, every
//! door has its matching door on the other side, and every room can be
//! reached from the start room by walking through doors.

use vstd::prelude::*;
use crate::piece::{Orientation, TypePiece, VuePiece, nombre_portes_valide};
use crate::doors::{pas, inverse, dans_rectangle};
use crate::grille::{avec_porte, visitee};

verus! {

/// The coordinate of the start room.
pub open spec fn origine() -> (int, int) {
    (0, 0)
}

/// Whether the room at `c` owns a door in direction `d`.
pub open spec fn porte_la(g: Map<(int, int), VuePiece>, c: (int, int), d: Orientation) -> bool {
    g.contains_key(c) && g[c].portes.contains(d)
}

/// Whether one door step leads from room `a` to room `b`.
pub open spec fn relie(g: Map<(int, int), VuePiece>, a: (int, int), b: (int, int)) -> bool {
    &&& g.contains_key(a)
    &&& g.contains_key(b)
    &&& exists |d: Orientation| #[trigger] g[a].portes.contains(d) && pas(a, d) == b
}

/// Whether `ch` is a walk through doors from `a` to `b`.
pub open spec fn est_chemin(g: Map<(int, int), VuePiece>, ch: Seq<(int, int)>, a: (int, int), b: (int, int)) -> bool {
    &&& ch.len() >= 1
    &&& ch[0] == a
    &&& ch[ch.len() - 1] == b
    &&& g.contains_key(a)
    &&& forall |i: int| 0 <= i < ch.len() - 1 ==> relie(g, #[trigger] ch[i], ch[i + 1])
}

/// Whether room `b` can be reached from room `a` by walking through doors.
pub open spec fn accessible(g: Map<(int, int), VuePiece>, a: (int, int), b: (int, int)) -> bool {
    exists |ch: Seq<(int, int)>| est_chemin(g, ch, a, b)
}

/// Every room reaches itself.
pub proof fn lemme_accessible_refl(g: Map<(int, int), VuePiece>, a: (int, int))
    requires
        g.contains_key(a),
    ensures
        accessible(g, a, a),
{
    let ch = seq![a];
    assert(est_chemin(g, ch, a, a));
}

/// A reachable room extends to its door neighbours.
pub proof fn lemme_accessible_pas(g: Map<(int, int), VuePiece>, a: (int, int), b: (int, int), c: (int, int))
    requires
        accessible(g, a, b),
        relie(g, b, c),
    ensures
        accessible(g, a, c),
{
    let ch = choose |ch: Seq<(int, int)>| est_chemin(g, ch, a, b);
    let ch2 = ch.push(c);
    assert forall |i: int| 0 <= i < ch2.len() - 1 implies relie(g, #[trigger] ch2[i], ch2[i + 1]) by {
        if i < ch.len() - 1 {
            assert(ch2[i] == ch[i]);
            assert(ch2[i + 1] == ch[i + 1]);
        } else {
            assert(ch2[i] == ch[ch.len() - 1]);
            assert(ch2[i + 1] == c);
        }
    }
    assert(est_chemin(g, ch2, a, c));
}

/// Whether `g2` keeps every room and every door of `g1`.
pub open spec fn etend(g1: Map<(int, int), VuePiece>, g2: Map<(int, int), VuePiece>) -> bool {
    &&& forall |c: (int, int)| #[trigger] g1.contains_key(c) ==> g2.contains_key(c)
    &&& forall |c: (int, int), d: Orientation| porte_la(g1, c, d) ==> #[trigger] porte_la(g2, c, d)
}

/// Walks survive the addition of rooms and doors.
pub proof fn lemme_accessible_monotone(g1: Map<(int, int), VuePiece>, g2: Map<(int, int), VuePiece>, a: (int, int), b: (int, int))
    requires
        etend(g1, g2),
        accessible(g1, a, b),
    ensures
        accessible(g2, a, b),
{
    let ch = choose |ch: Seq<(int, int)>| est_chemin(g1, ch, a, b);
    assert forall |i: int| 0 <= i < ch.len() - 1 implies relie(g2, #[trigger] ch[i], ch[i + 1]) by {
        assert(relie(g1, ch[i], ch[i + 1]));
        let d = choose |d: Orientation| #[trigger] g1[ch[i]].portes.contains(d) && pas(ch[i], d) == ch[i + 1];
        assert(porte_la(g1, ch[i], d));
        assert(porte_la(g2, ch[i], d));
        assert(g1.contains_key(ch[i + 1]));
    }
    assert(est_chemin(g2, ch, a, b));
}

/// Adding a fresh room extends the maze.
pub proof fn lemme_etend_insertion(g: Map<(int, int), VuePiece>, c: (int, int), v: VuePiece)
    requires
        !g.contains_key(c),
    ensures
        etend(g, g.insert(c, v)),
{
}

/// Opening one more door extends the maze.
pub proof fn lemme_etend_porte(g: Map<(int, int), VuePiece>, c: (int, int), d: Orientation)
    requires
        g.contains_key(c),
    ensures
        etend(g, g.insert(c, avec_porte(g[c], d))),
{
    let g2 = g.insert(c, avec_porte(g[c], d));
    assert forall |c2: (int, int), d2: Orientation| porte_la(g, c2, d2)
        implies #[trigger] porte_la(g2, c2, d2) by {
        if c2 == c {
            let i = choose |i: int| 0 <= i < g[c].portes.len() && g[c].portes[i] == d2;
            assert(g2[c].portes[i] == d2);
        }
    }
}

/// An element stays in a list after a push.
pub proof fn lemme_contient_pousser(s: Seq<Orientation>, d: Orientation, x: Orientation)
    requires
        s.contains(x),
    ensures
        s.push(d).contains(x),
{
    let i = choose |i: int| 0 <= i < s.len() && s[i] == x;
    assert(s.push(d)[i] == x);
}

/// What `avec_porte` makes a door list hold.
pub proof fn lemme_avec_porte_contient(v: VuePiece, d: Orientation, x: Orientation)
    ensures
        avec_porte(v, d).portes.contains(x) <==> (v.portes.contains(x) || x == d),
{
    let p2 = avec_porte(v, d).portes;
    if v.portes.contains(d) {
        assert(p2 == v.portes);
    } else {
        assert(p2 == v.portes.push(d));
        if p2.contains(x) {
            let i = choose |i: int| 0 <= i < p2.len() && p2[i] == x;
            if i < v.portes.len() {
                assert(v.portes[i] == x);
            } else {
                assert(x == d);
            }
        }
        if v.portes.contains(x) {
            lemme_contient_pousser(v.portes, d, x);
        }
        assert(p2[p2.len() - 1] == d);
    }
}

/// Pushing a direction that is not yet there keeps a list duplicate-free.
pub proof fn lemme_nodup_pousser(s: Seq<Orientation>, d: Orientation)
    requires
        s.no_duplicates(),
        !s.contains(d),
    ensures
        s.push(d).no_duplicates(),
{
    let s2 = s.push(d);
    assert forall |i: int, j: int| 0 <= i < s2.len() && 0 <= j < s2.len() && i != j
        implies s2[i] != s2[j] by {
        if i < s.len() && j < s.len() {
            assert(s2[i] == s[i] && s2[j] == s[j]);
        } else if i < s.len() {
            assert(s2[i] == s[i] && s2[j] == d);
            if s[i] == d {
                assert(s.contains(d));
            }
        } else {
            assert(s2[i] == d && s2[j] == s[j]);
            if s[j] == d {
                assert(s.contains(d));
            }
        }
    }
}

/// A duplicate-free list of directions holds at most four of them.
pub proof fn lemme_portes_bornees(s: Seq<Orientation>)
    requires
        s.no_duplicates(),
    ensures
        s.len() <= 4,
{
    if s.len() >= 5 {
        assert(s[0] != s[1] && s[0] != s[2] && s[0] != s[3] && s[0] != s[4]);
        assert(s[1] != s[2] && s[1] != s[3] && s[1] != s[4]);
        assert(s[2] != s[3] && s[2] != s[4]);
        assert(s[3] != s[4]);
        assert(false);
    }
}

/// A duplicate-free list of directions missing one of them holds at most three.
pub proof fn lemme_portes_bornees_sans(s: Seq<Orientation>, d0: Orientation)
    requires
        s.no_duplicates(),
        !s.contains(d0),
    ensures
        s.len() <= 3,
{
    if s.len() >= 4 {
        assert(s[0] != s[1] && s[0] != s[2] && s[0] != s[3]);
        assert(s[1] != s[2] && s[1] != s[3]);
        assert(s[2] != s[3]);
        assert(s[0] != d0 && s[1] != d0 && s[2] != d0 && s[3] != d0);
        assert(false);
    }
}

/// The freshly built grid: one ordinary room without doors for every cell
/// of the rectangle, and nothing else.
pub open spec fn grille_vierge(g: Map<(int, int), VuePiece>, largeur: int, hauteur: int) -> bool {
    &&& forall |c: (int, int)| #![trigger g.contains_key(c)] #![trigger dans_rectangle(c, largeur, hauteur)]
        (g.contains_key(c) <==> dans_rectangle(c, largeur, hauteur))
    &&& forall |c: (int, int)| #[trigger] g.contains_key(c)
        ==> g[c].typage == TypePiece::Normal && g[c].portes.len() == 0
}

/// Every door points back: a door from `c` toward `d` implies a door from
/// the neighbour back toward `c`.
pub open spec fn portes_bidirectionnelles(g: Map<(int, int), VuePiece>) -> bool {
    forall |c: (int, int), d: Orientation| #[trigger] porte_la(g, c, d)
        ==> porte_la(g, pas(c, d), inverse(d))
}

/// The start role sits exactly at the origin and the end role exactly at `cf`.
pub open spec fn roles_corrects(g: Map<(int, int), VuePiece>, cf: (int, int)) -> bool {
    forall |c: (int, int)| #[trigger] g.contains_key(c)
        ==> (g[c].typage == TypePiece::Debut <==> c == origine())
            && (g[c].typage == TypePiece::Fin <==> c == cf)
}

/// Door lists are duplicate-free and their lengths suit the roles.
pub open spec fn comptes_portes_corrects(g: Map<(int, int), VuePiece>) -> bool {
    forall |c: (int, int)| #[trigger] g.contains_key(c)
        ==> g[c].portes.no_duplicates()
            && nombre_portes_valide(g[c].typage, g[c].portes.len() as int)
}

/// Every room of the maze can be reached from the start room.
pub open spec fn tout_accessible(g: Map<(int, int), VuePiece>) -> bool {
    forall |c: (int, int)| #[trigger] g.contains_key(c) ==> accessible(g, origine(), c)
}

/// A finished maze whose end room sits at `cf`.
pub open spec fn labyrinthe_valide_avec_fin(g: Map<(int, int), VuePiece>, largeur: int, hauteur: int, cf: (int, int)) -> bool {
    &&& !dans_rectangle(cf, largeur, hauteur)
    &&& -(largeur / 2) - 1 <= cf.0 <= largeur / 2 + 1
    &&& -(hauteur / 2) - 1 <= cf.1 <= hauteur / 2 + 1
    &&& forall |c: (int, int)| #![trigger g.contains_key(c)] #![trigger dans_rectangle(c, largeur, hauteur)]
        (g.contains_key(c) <==> (dans_rectangle(c, largeur, hauteur) || c == cf))
    &&& roles_corrects(g, cf)
    &&& comptes_portes_corrects(g)
    &&& portes_bidirectionnelles(g)
    &&& tout_accessible(g)
}

/// An unvisited cell of the rectangle that the patch phase can stitch in:
/// one of its neighbours is already visited and is not the start room,
/// whose single door must stay alone.
pub open spec fn candidat_raccord(v: Map<(int, int), bool>, c: (int, int), largeur: int, hauteur: int) -> bool {
    &&& dans_rectangle(c, largeur, hauteur)
    &&& !visitee(v, c)
    &&& exists |d: Orientation| #[trigger] visitee(v, pas(c, d)) && pas(c, d) != origine()
}

/// Whether `b` sits one grid step away from `a`, doors aside.
pub open spec fn voisins(a: (int, int), b: (int, int)) -> bool {
    exists |d: Orientation| #[trigger] pas(a, d) == b
}

/// A walk over grid cells from `a` to `b` that stays in the rectangle and
/// never touches the origin; doors play no part in it.
pub open spec fn est_chemin_cellules(p: Seq<(int, int)>, a: (int, int), b: (int, int), largeur: int, hauteur: int) -> bool {
    &&& p.len() >= 1
    &&& p[0] == a
    &&& p[p.len() - 1] == b
    &&& forall |i: int| 0 <= i < p.len()
        ==> dans_rectangle(#[trigger] p[i], largeur, hauteur) && p[i] != origine()
    &&& forall |i: int| 0 <= i < p.len() - 1 ==> voisins(#[trigger] p[i], p[i + 1])
}

/// The straight row of cells from `(x1, y)` to `(x2, y)`.
pub open spec fn segment_h(y: int, x1: int, x2: int) -> Seq<(int, int)> {
    if x1 <= x2 {
        Seq::new((x2 - x1 + 1) as nat, |i: int| (x1 + i, y))
    } else {
        Seq::new((x1 - x2 + 1) as nat, |i: int| (x1 - i, y))
    }
}

/// The straight column of cells from `(x, y1)` to `(x, y2)`.
pub open spec fn segment_v(x: int, y1: int, y2: int) -> Seq<(int, int)> {
    if y1 <= y2 {
        Seq::new((y2 - y1 + 1) as nat, |i: int| (x, y1 + i))
    } else {
        Seq::new((y1 - y2 + 1) as nat, |i: int| (x, y1 - i))
    }
}

/// A row that avoids the origin's row is a cell walk.
proof fn lemme_segment_h(y: int, x1: int, x2: int, largeur: int, hauteur: int)
    requires
        y != 0,
        -(hauteur / 2) <= y <= hauteur / 2,
        -(largeur / 2) <= x1 <= largeur / 2,
        -(largeur / 2) <= x2 <= largeur / 2,
    ensures
        est_chemin_cellules(segment_h(y, x1, x2), (x1, y), (x2, y), largeur, hauteur),
{
    let p = segment_h(y, x1, x2);
    assert forall |i: int| 0 <= i < p.len() - 1 implies voisins(#[trigger] p[i], p[i + 1]) by {
        if x1 <= x2 {
            assert(pas((x1 + i, y), Orientation::E) == (x1 + i + 1, y));
        } else {
            assert(pas((x1 - i, y), Orientation::O) == (x1 - i - 1, y));
        }
    }
}

/// A column off the origin's column is a cell walk; a one-cell column off
/// the origin's row is as well.
proof fn lemme_segment_v(x: int, y1: int, y2: int, largeur: int, hauteur: int)
    requires
        x != 0 || (y1 == y2 && y1 != 0),
        -(largeur / 2) <= x <= largeur / 2,
        -(hauteur / 2) <= y1 <= hauteur / 2,
        -(hauteur / 2) <= y2 <= hauteur / 2,
    ensures
        est_chemin_cellules(segment_v(x, y1, y2), (x, y1), (x, y2), largeur, hauteur),
{
    let p = segment_v(x, y1, y2);
    assert forall |i: int| 0 <= i < p.len() - 1 implies voisins(#[trigger] p[i], p[i + 1]) by {
        if y1 <= y2 {
            assert(pas((x, y1 + i), Orientation::S) == (x, y1 + i + 1));
        } else {
            assert(pas((x, y1 - i), Orientation::N) == (x, y1 - i - 1));
        }
    }
}

/// Two cell walks sharing an endpoint glue into one.
proof fn lemme_coller_chemins(p1: Seq<(int, int)>, p2: Seq<(int, int)>, a: (int, int), m: (int, int), b: (int, int), largeur: int, hauteur: int)
    requires
        est_chemin_cellules(p1, a, m, largeur, hauteur),
        est_chemin_cellules(p2, m, b, largeur, hauteur),
    ensures
        est_chemin_cellules(p1 + p2.subrange(1, p2.len() as int), a, b, largeur, hauteur),
{
    let p = p1 + p2.subrange(1, p2.len() as int);
    assert(p.len() == p1.len() + p2.len() - 1);
    assert forall |i: int| 0 <= i < p.len()
        implies dans_rectangle(#[trigger] p[i], largeur, hauteur) && p[i] != origine() by {
        if i < p1.len() {
            assert(p[i] == p1[i]);
        } else {
            assert(p[i] == p2[i - p1.len() + 1]);
        }
    }
    if p2.len() == 1 {
        assert(p =~= p1);
        assert(m == b);
    } else {
        assert(p[p.len() - 1] == p2[p2.len() - 1]);
    }
    assert forall |i: int| 0 <= i < p.len() - 1 implies voisins(#[trigger] p[i], p[i + 1]) by {
        if i + 1 < p1.len() {
            assert(p[i] == p1[i] && p[i + 1] == p1[i + 1]);
        } else if i + 1 == p1.len() {
            assert(p[i] == p1[p1.len() - 1]);
            assert(p[i + 1] == p2[1]);
            assert(voisins(p2[0], p2[1]));
        } else {
            assert(p[i] == p2[i - p1.len() + 1] && p[i + 1] == p2[i - p1.len() + 2]);
            assert(voisins(p2[i - p1.len() + 1], p2[i - p1.len() + 2]));
        }
    }
}

/// Between any two non-origin cells of the rectangle runs a cell walk that
/// never touches the origin: out to the east edge, along it, and back in,
/// stepping off the origin's row first when needed.
proof fn lemme_chemin_sans_origine(a: (int, int), b: (int, int), largeur: int, hauteur: int)
    requires
        2 <= largeur,
        2 <= hauteur,
        dans_rectangle(a, largeur, hauteur),
        dans_rectangle(b, largeur, hauteur),
        a != origine(),
        b != origine(),
    ensures
        exists |p: Seq<(int, int)>| est_chemin_cellules(p, a, b, largeur, hauteur),
{
    let bord = largeur / 2;
    let ya: int = if a.1 == 0 { 1 } else { a.1 };
    let yb: int = if b.1 == 0 { 1 } else { b.1 };
    lemme_segment_v(a.0, a.1, ya, largeur, hauteur);
    lemme_segment_h(ya, a.0, bord, largeur, hauteur);
    lemme_segment_v(bord, ya, yb, largeur, hauteur);
    lemme_segment_h(yb, bord, b.0, largeur, hauteur);
    lemme_segment_v(b.0, yb, b.1, largeur, hauteur);
    let p1 = segment_v(a.0, a.1, ya);
    let p2 = segment_h(ya, a.0, bord);
    let p3 = segment_v(bord, ya, yb);
    let p4 = segment_h(yb, bord, b.0);
    let p5 = segment_v(b.0, yb, b.1);
    lemme_coller_chemins(p1, p2, a, (a.0, ya), (bord, ya), largeur, hauteur);
    let q2 = p1 + p2.subrange(1, p2.len() as int);
    lemme_coller_chemins(q2, p3, a, (bord, ya), (bord, yb), largeur, hauteur);
    let q3 = q2 + p3.subrange(1, p3.len() as int);
    lemme_coller_chemins(q3, p4, a, (bord, yb), (b.0, yb), largeur, hauteur);
    let q4 = q3 + p4.subrange(1, p4.len() as int);
    lemme_coller_chemins(q4, p5, a, (b.0, yb), b, largeur, hauteur);
    let q5 = q4 + p5.subrange(1, p5.len() as int);
    assert(est_chemin_cellules(q5, a, b, largeur, hauteur));
}

/// Walking from a visited non-origin cell to an unvisited cell without
/// touching the origin crosses the boundary of the visited region at a
/// stitchable cell.
proof fn lemme_traversee(v: Map<(int, int), bool>, p: Seq<(int, int)>, largeur: int, hauteur: int)
    requires
        p.len() >= 2,
        forall |i: int| 0 <= i < p.len()
            ==> dans_rectangle(#[trigger] p[i], largeur, hauteur) && p[i] != origine(),
        forall |i: int| 0 <= i < p.len() - 1 ==> voisins(#[trigger] p[i], p[i + 1]),
        visitee(v, p[0]),
        !visitee(v, p[p.len() - 1]),
    ensures
        exists |c: (int, int)| candidat_raccord(v, c, largeur, hauteur),
    decreases p.len(),
{
    if visitee(v, p[1]) {
        let p2 = p.subrange(1, p.len() as int);
        assert forall |i: int| 0 <= i < p2.len() - 1 implies voisins(#[trigger] p2[i], p2[i + 1]) by {
            assert(p2[i] == p[i + 1] && p2[i + 1] == p[i + 2]);
            assert(voisins(p[i + 1], p[i + 2]));
        }
        lemme_traversee(v, p2, largeur, hauteur);
    } else {
        let d = choose |d: Orientation| #[trigger] pas(p[0], d) == p[1];
        crate::doors::lemme_pas_inverse(p[0], d);
        assert(pas(p[1], inverse(d)) == p[0]);
        assert(candidat_raccord(v, p[1], largeur, hauteur)) by {
            assert(visitee(v, pas(p[1], inverse(d))) && pas(p[1], inverse(d)) != origine());
        }
    }
}

/// Whenever one cell besides the origin is visited and one cell of the
/// rectangle is not, some unvisited cell can be stitched in: the rectangle
/// without the origin stays connected.
pub proof fn lemme_raccordable_existe(v: Map<(int, int), bool>, largeur: int, hauteur: int, temoin: (int, int), restant: (int, int))
    requires
        2 <= largeur,
        2 <= hauteur,
        forall |c: (int, int)| #[trigger] v.contains_key(c) <==> dans_rectangle(c, largeur, hauteur),
        visitee(v, origine()),
        visitee(v, temoin),
        temoin != origine(),
        v.contains_key(restant),
        !v[restant],
    ensures
        exists |c: (int, int)| candidat_raccord(v, c, largeur, hauteur),
{
    assert(dans_rectangle(temoin, largeur, hauteur));
    assert(dans_rectangle(restant, largeur, hauteur));
    assert(restant != origine());
    lemme_chemin_sans_origine(temoin, restant, largeur, hauteur);
    let p = choose |p: Seq<(int, int)>| est_chemin_cellules(p, temoin, restant, largeur, hauteur);
    if p.len() == 1 {
        assert(temoin == restant);
    }
    lemme_traversee(v, p, largeur, hauteur);
}

/// A finished maze: valid for some end-room coordinate.
pub open spec fn labyrinthe_valide(g: Map<(int, int), VuePiece>, largeur: int, hauteur: int) -> bool {
    exists |cf: (int, int)| labyrinthe_valide_avec_fin(g, largeur, hauteur, cf)
}

} // verus!
