//! The room grid and the visited map.
//!
//! Both are association tables keyed by a coordinate, modelled as a
//! `Map<(int, int), _>`.  The table keeps its keys unique; lookups scan the
//! entries, which keeps every operation fully verified.

use vstd::prelude::*;
use vstd::pervasive::unreached;
use crate::piece::{Orientation, Piece, TypePiece, VuePiece};
use crate::doors::{vue_coord, dans_rectangle};

verus! {

// ------------------------------------------------------------------
// A table of entries keyed by a coordinate, viewed as a mathematical map.
// ------------------------------------------------------------------

pub(crate) struct Table<T> {
    entrees: Vec<((i32, i32), T)>,
}

pub(crate) open spec fn vue_table<T: View>(s: Seq<((i32, i32), T)>) -> Map<(int, int), T::V>
    decreases s.len(),
{
    if s.len() == 0 {
        Map::empty()
    } else {
        vue_table(s.drop_last()).insert(vue_coord(s.last().0), s.last().1@)
    }
}

pub(crate) open spec fn cles_uniques<T>(s: Seq<((i32, i32), T)>) -> bool {
    forall |i: int, j: int| 0 <= i < j < s.len() ==> (#[trigger] s[i]).0 != (#[trigger] s[j]).0
}

proof fn lemme_vue_contient<T: View>(s: Seq<((i32, i32), T)>, c: (int, int))
    ensures
        vue_table(s).contains_key(c) <==> exists |i: int| 0 <= i < s.len() && vue_coord((#[trigger] s[i]).0) == c,
    decreases s.len(),
{
    if s.len() == 0 {
    } else {
        lemme_vue_contient(s.drop_last(), c);
        if vue_table(s).contains_key(c) {
            if c == vue_coord(s.last().0) {
                assert(vue_coord(s[s.len() - 1].0) == c);
            } else {
                let i = choose |i: int| 0 <= i < s.drop_last().len() && vue_coord(s.drop_last()[i].0) == c;
                assert(vue_coord(s[i].0) == c);
            }
        }
        if exists |i: int| 0 <= i < s.len() && vue_coord((#[trigger] s[i]).0) == c {
            let i = choose |i: int| 0 <= i < s.len() && vue_coord((#[trigger] s[i]).0) == c;
            if i < s.len() - 1 {
                assert(vue_coord(s.drop_last()[i].0) == c);
            }
        }
    }
}

proof fn lemme_vue_index<T: View>(s: Seq<((i32, i32), T)>, i: int)
    requires
        cles_uniques(s),
        0 <= i < s.len(),
    ensures
        vue_table(s).contains_key(vue_coord(s[i].0)),
        vue_table(s)[vue_coord(s[i].0)] == s[i].1@,
    decreases s.len(),
{
    if i == s.len() - 1 {
    } else {
        assert(cles_uniques(s.drop_last())) by {
            assert forall |a: int, b: int| 0 <= a < b < s.drop_last().len()
                implies (#[trigger] s.drop_last()[a]).0 != (#[trigger] s.drop_last()[b]).0 by {
                assert(s[a].0 != s[b].0);
            }
        }
        assert(s.drop_last()[i] == s[i]);
        lemme_vue_index(s.drop_last(), i);
        assert(s[i].0 != s[s.len() - 1].0);
    }
}

proof fn lemme_cles_uniques_drop<T>(s: Seq<((i32, i32), T)>)
    requires
        cles_uniques(s),
        s.len() > 0,
    ensures
        cles_uniques(s.drop_last()),
{
    assert forall |a: int, b: int| 0 <= a < b < s.drop_last().len()
        implies (#[trigger] s.drop_last()[a]).0 != (#[trigger] s.drop_last()[b]).0 by {
        assert(s[a].0 != s[b].0);
    }
}

proof fn lemme_vue_retrait<T: View>(s: Seq<((i32, i32), T)>, i: int)
    requires
        cles_uniques(s),
        0 <= i < s.len(),
    ensures
        cles_uniques(s.remove(i)),
        vue_table(s.remove(i)) == vue_table(s).remove(vue_coord(s[i].0)),
    decreases s.len(),
{
    lemme_cles_uniques_drop(s);
    assert forall |a: int, b: int| 0 <= a < b < s.remove(i).len()
        implies (#[trigger] s.remove(i)[a]).0 != (#[trigger] s.remove(i)[b]).0 by {
        let a2: int = if a < i { a } else { a + 1 };
        let b2: int = if b < i { b } else { b + 1 };
        assert(s[a2].0 != s[b2].0);
    }
    if i == s.len() - 1 {
        assert(s.remove(i) =~= s.drop_last());
        lemme_vue_contient(s.drop_last(), vue_coord(s[i].0));
        assert forall |j: int| 0 <= j < s.drop_last().len()
            implies vue_coord((#[trigger] s.drop_last()[j]).0) != vue_coord(s[i].0) by {
            assert(s[j].0 != s[i].0);
        }
        assert(!vue_table(s.drop_last()).contains_key(vue_coord(s[i].0)));
        assert(vue_table(s.drop_last()) =~= vue_table(s).remove(vue_coord(s[i].0)));
    } else {
        lemme_vue_retrait(s.drop_last(), i);
        assert(s.remove(i).drop_last() =~= s.drop_last().remove(i));
        assert(s.remove(i).last() == s.last());
        assert(s.drop_last()[i] == s[i]);
        assert(s[i].0 != s[s.len() - 1].0);
        assert(vue_table(s.remove(i)) =~= vue_table(s).remove(vue_coord(s[i].0)));
    }
}

impl<T: View> View for Table<T> {
    type V = Map<(int, int), T::V>;

    closed spec fn view(&self) -> Map<(int, int), T::V> {
        vue_table(self.entrees@)
    }
}

impl<T: View> Table<T> {
    pub(crate) closed spec fn bien_formee(&self) -> bool {
        cles_uniques(self.entrees@)
    }

    pub(crate) closed spec fn entrees_vue(&self) -> Seq<((i32, i32), T)> {
        self.entrees@
    }

    pub(crate) fn vide() -> (r: Table<T>)
        ensures
            r.bien_formee(),
            r@ == Map::<(int, int), T::V>::empty(),
            r.entrees_vue() == Seq::<((i32, i32), T)>::empty(),
    {
        Table { entrees: Vec::new() }
    }

    fn chercher(&self, c: (i32, i32)) -> (r: Option<usize>)
        requires
            self.bien_formee(),
        ensures
            r matches Some(i) ==> i < self.entrees_vue().len() && self.entrees_vue()[i as int].0 == c,
            r is None ==> !self@.contains_key(vue_coord(c)),
    {
        let mut i: usize = 0;
        while i < self.entrees.len()
            invariant
                i <= self.entrees@.len(),
                forall |j: int| 0 <= j < i ==> (#[trigger] self.entrees@[j]).0 != c,
            decreases self.entrees@.len() - i,
        {
            if self.entrees[i].0.0 == c.0 && self.entrees[i].0.1 == c.1 {
                return Some(i);
            }
            i += 1;
        }
        proof {
            lemme_vue_contient(self.entrees@, vue_coord(c));
        }
        None
    }

    pub(crate) fn lire(&self, c: (i32, i32)) -> (r: Option<&T>)
        requires
            self.bien_formee(),
        ensures
            r matches Some(t) ==> self@.contains_key(vue_coord(c)) && t@ == self@[vue_coord(c)],
            r is None ==> !self@.contains_key(vue_coord(c)),
    {
        match self.chercher(c) {
            Some(i) => {
                proof {
                    lemme_vue_index(self.entrees@, i as int);
                }
                Some(&self.entrees[i].1)
            }
            None => None,
        }
    }

    pub(crate) fn inserer(&mut self, c: (i32, i32), t: T)
        requires
            old(self).bien_formee(),
            !old(self)@.contains_key(vue_coord(c)),
        ensures
            final(self).bien_formee(),
            final(self)@ == old(self)@.insert(vue_coord(c), t@),
            final(self).entrees_vue() == old(self).entrees_vue().push((c, t)),
    {
        proof {
            lemme_vue_contient(self.entrees@, vue_coord(c));
        }
        self.entrees.push((c, t));
        proof {
            let s = self.entrees@;
            assert(s.drop_last() =~= old(self).entrees@);
            assert forall |a: int, b: int| 0 <= a < b < s.len()
                implies (#[trigger] s[a]).0 != (#[trigger] s[b]).0 by {
                if b < s.len() - 1 {
                    assert(old(self).entrees@[a].0 != old(self).entrees@[b].0);
                } else {
                    assert(vue_coord(old(self).entrees@[a].0) != vue_coord(c));
                }
            }
        }
    }

    pub(crate) fn oter(&mut self, c: (i32, i32)) -> (r: T)
        requires
            old(self).bien_formee(),
            old(self)@.contains_key(vue_coord(c)),
        ensures
            final(self).bien_formee(),
            final(self)@ == old(self)@.remove(vue_coord(c)),
            r@ == old(self)@[vue_coord(c)],
            exists |i: int| 0 <= i < old(self).entrees_vue().len()
                && (#[trigger] old(self).entrees_vue()[i]).0 == c
                && final(self).entrees_vue() == old(self).entrees_vue().remove(i),
    {
        match self.chercher(c) {
            Some(i) => {
                proof {
                    lemme_vue_index(self.entrees@, i as int);
                    lemme_vue_retrait(self.entrees@, i as int);
                }
                let e = self.entrees.remove(i);
                e.1
            }
            None => unreached(),
        }
    }

    pub(crate) fn longueur(&self) -> (n: usize)
        ensures
            n == self.entrees_vue().len(),
    {
        self.entrees.len()
    }

    pub(crate) fn entree_cle(&self, i: usize) -> (c: (i32, i32))
        requires
            i < self.entrees_vue().len(),
        ensures
            c == self.entrees_vue()[i as int].0,
    {
        self.entrees[i].0
    }
}

impl<T: View + Copy> Table<T> {
    pub(crate) fn entree_valeur(&self, i: usize) -> (t: T)
        requires
            i < self.entrees_vue().len(),
        ensures
            t == self.entrees_vue()[i as int].1,
    {
        self.entrees[i].1
    }
}

// ------------------------------------------------------------------
// The room grid.
// ------------------------------------------------------------------

/// `v` after the door `d` was added, if it was not already there.
pub open spec fn avec_porte(v: VuePiece, d: Orientation) -> VuePiece {
    if v.portes.contains(d) {
        v
    } else {
        VuePiece { typage: v.typage, portes: v.portes.push(d) }
    }
}

/// `v` with its role replaced by `t`.
pub open spec fn avec_typage(v: VuePiece, t: TypePiece) -> VuePiece {
    VuePiece { typage: t, portes: v.portes }
}

/// The rectangle of rooms, plus possibly the one end room outside it.
pub struct Grille {
    table: Table<Piece>,
}

impl View for Grille {
    type V = Map<(int, int), VuePiece>;

    closed spec fn view(&self) -> Map<(int, int), VuePiece> {
        self.table@
    }
}

impl Grille {
    pub closed spec fn bien_formee(&self) -> bool {
        self.table.bien_formee()
    }

    pub fn vide() -> (r: Grille)
        ensures
            r.bien_formee(),
            r@ == Map::<(int, int), VuePiece>::empty(),
    {
        Grille { table: Table::vide() }
    }

    /// The room at `c`, if the grid holds one.
    pub fn lire(&self, c: (i32, i32)) -> (r: Option<&Piece>)
        requires
            self.bien_formee(),
        ensures
            r matches Some(p) ==> self@.contains_key(vue_coord(c)) && p@ == self@[vue_coord(c)],
            r is None ==> !self@.contains_key(vue_coord(c)),
    {
        self.table.lire(c)
    }

    /// Adds a fresh room at `c`.
    pub fn inserer(&mut self, c: (i32, i32), p: Piece)
        requires
            old(self).bien_formee(),
            !old(self)@.contains_key(vue_coord(c)),
        ensures
            final(self).bien_formee(),
            final(self)@ == old(self)@.insert(vue_coord(c), p@),
    {
        self.table.inserer(c, p);
    }

    /// Opens the door `d` in the room at `c`; an already open door is kept
    /// as it is, so door lists never hold duplicates.
    pub fn ajouter_porte(&mut self, c: (i32, i32), d: Orientation)
        requires
            old(self).bien_formee(),
            old(self)@.contains_key(vue_coord(c)),
        ensures
            final(self).bien_formee(),
            final(self)@ == old(self)@.insert(vue_coord(c), avec_porte(old(self)@[vue_coord(c)], d)),
    {
        let mut p = self.table.oter(c);
        let mut deja = false;
        let mut i: usize = 0;
        while i < p.orientations.len()
            invariant
                i <= p.orientations@.len(),
                deja == exists |j: int| 0 <= j < i && p.orientations@[j] == d,
            decreases p.orientations@.len() - i,
        {
            if p.orientations[i] == d {
                deja = true;
            }
            i += 1;
        }
        assert(deja == p.orientations@.contains(d));
        if !deja {
            p.orientations.push(d);
        }
        let ghost avant = self@;
        self.table.inserer(c, p);
        proof {
            assert(self@ =~= avant.insert(vue_coord(c), avec_porte(old(self)@[vue_coord(c)], d)));
            assert(self@ =~= old(self)@.insert(vue_coord(c), avec_porte(old(self)@[vue_coord(c)], d)));
        }
    }

    /// Replaces the role of the room at `c`.
    pub fn definir_typage(&mut self, c: (i32, i32), t: TypePiece)
        requires
            old(self).bien_formee(),
            old(self)@.contains_key(vue_coord(c)),
        ensures
            final(self).bien_formee(),
            final(self)@ == old(self)@.insert(vue_coord(c), avec_typage(old(self)@[vue_coord(c)], t)),
    {
        let mut p = self.table.oter(c);
        p.typage_piece = t;
        self.table.inserer(c, p);
        proof {
            assert(self@ =~= old(self)@.insert(vue_coord(c), avec_typage(old(self)@[vue_coord(c)], t)));
        }
    }
}

// ------------------------------------------------------------------
// The visited map used while generating.
// ------------------------------------------------------------------

/// Whether the visited map `v` marks `c` as already visited.
pub open spec fn visitee(v: Map<(int, int), bool>, c: (int, int)) -> bool {
    v.contains_key(c) && v[c]
}

/// Whether the coordinate list `s` holds the coordinate `c`.
pub open spec fn contient_coord(s: Seq<(i32, i32)>, c: (int, int)) -> bool {
    exists |i: int| 0 <= i < s.len() && vue_coord(#[trigger] s[i]) == c
}

spec fn compte_seq(s: Seq<((i32, i32), bool)>) -> nat
    decreases s.len(),
{
    if s.len() == 0 {
        0
    } else {
        compte_seq(s.drop_last()) + (if s.last().1 { 0nat } else { 1nat })
    }
}

proof fn lemme_compte_retrait(s: Seq<((i32, i32), bool)>, i: int)
    requires
        0 <= i < s.len(),
    ensures
        compte_seq(s) == compte_seq(s.remove(i)) + (if s[i].1 { 0nat } else { 1nat }),
    decreases s.len(),
{
    if i == s.len() - 1 {
        assert(s.remove(i) =~= s.drop_last());
    } else {
        lemme_compte_retrait(s.drop_last(), i);
        assert(s.remove(i).drop_last() =~= s.drop_last().remove(i));
        assert(s.remove(i).last() == s.last());
        assert(s.drop_last()[i] == s[i]);
    }
}

proof fn lemme_compte_positif_indice(s: Seq<((i32, i32), bool)>)
    requires
        compte_seq(s) > 0,
    ensures
        exists |i: int| 0 <= i < s.len() && !(#[trigger] s[i]).1,
    decreases s.len(),
{
    if s.len() > 0 {
        if !s.last().1 {
            assert(!s[s.len() - 1].1);
        } else {
            lemme_compte_positif_indice(s.drop_last());
            let i = choose |i: int| 0 <= i < s.drop_last().len() && !(#[trigger] s.drop_last()[i]).1;
            assert(!s[i].1);
        }
    }
}

proof fn lemme_compte_entree_fausse(s: Seq<((i32, i32), bool)>, i: int)
    requires
        0 <= i < s.len(),
        !s[i].1,
    ensures
        compte_seq(s) >= 1,
    decreases s.len(),
{
    if i == s.len() - 1 {
    } else {
        assert(s.drop_last()[i] == s[i]);
        lemme_compte_entree_fausse(s.drop_last(), i);
    }
}

/// The map of cells already visited by the generator, over exactly the
/// cells of the rectangle.
pub struct CarteVisites {
    table: Table<bool>,
}

impl View for CarteVisites {
    type V = Map<(int, int), bool>;

    closed spec fn view(&self) -> Map<(int, int), bool> {
        self.table@
    }
}

impl CarteVisites {
    pub closed spec fn bien_formee(&self) -> bool {
        self.table.bien_formee()
    }

    /// How many cells are still unvisited.
    pub closed spec fn compte(&self) -> nat {
        compte_seq(self.table.entrees_vue())
    }

    /// A map marking every cell of the rectangle as unvisited.
    pub fn nouvelle(largeur: i32, hauteur: i32) -> (r: CarteVisites)
        requires
            2 <= largeur <= 30000,
            2 <= hauteur <= 30000,
        ensures
            r.bien_formee(),
            forall |c: (int, int)| #![trigger r@.contains_key(c)] #![trigger dans_rectangle(c, largeur as int, hauteur as int)]
                (r@.contains_key(c) <==> dans_rectangle(c, largeur as int, hauteur as int)),
            forall |c: (int, int)| r@.contains_key(c) ==> !r@[c],
    {
        let min_x = -(largeur / 2);
        let max_x = largeur / 2;
        let min_y = -(hauteur / 2);
        let max_y = hauteur / 2;
        let mut table: Table<bool> = Table::vide();
        let mut x = min_x;
        while x <= max_x
            invariant
                min_x <= x <= max_x + 1,
                min_x == -(largeur as int / 2) && max_x == largeur as int / 2,
                min_y == -(hauteur as int / 2) && max_y == hauteur as int / 2,
                2 <= largeur <= 30000,
                2 <= hauteur <= 30000,
                table.bien_formee(),
                forall |c: (int, int)| table@.contains_key(c)
                    <==> (min_x <= c.0 < x && min_y <= c.1 <= max_y),
                forall |c: (int, int)| table@.contains_key(c) ==> !table@[c],
            decreases max_x + 1 - x,
        {
            let mut y = min_y;
            while y <= max_y
                invariant
                    min_x <= x <= max_x,
                    min_y <= y <= max_y + 1,
                    min_x == -(largeur as int / 2) && max_x == largeur as int / 2,
                    min_y == -(hauteur as int / 2) && max_y == hauteur as int / 2,
                    2 <= largeur <= 30000,
                    2 <= hauteur <= 30000,
                    table.bien_formee(),
                    forall |c: (int, int)| table@.contains_key(c)
                        <==> ((min_x <= c.0 < x && min_y <= c.1 <= max_y)
                            || (c.0 == x && min_y <= c.1 < y)),
                    forall |c: (int, int)| table@.contains_key(c) ==> !table@[c],
                decreases max_y + 1 - y,
            {
                table.inserer((x, y), false);
                y += 1;
            }
            x += 1;
        }
        CarteVisites { table }
    }

    /// Whether the cell `c` has been visited; a coordinate outside the
    /// rectangle counts as unvisited.
    pub fn est_visitee(&self, c: (i32, i32)) -> (r: bool)
        requires
            self.bien_formee(),
        ensures
            r == visitee(self@, vue_coord(c)),
    {
        match self.table.lire(c) {
            Some(v) => *v,
            None => false,
        }
    }

    /// Marks the cell `c` as visited.
    pub fn marquer(&mut self, c: (i32, i32))
        requires
            old(self).bien_formee(),
            old(self)@.contains_key(vue_coord(c)),
        ensures
            final(self).bien_formee(),
            final(self)@ == old(self)@.insert(vue_coord(c), true),
            old(self)@[vue_coord(c)] ==> final(self).compte() == old(self).compte(),
            !old(self)@[vue_coord(c)] ==> final(self).compte() + 1 == old(self).compte(),
    {
        let ghost s0 = self.table.entrees_vue();
        let _ancienne = self.table.oter(c);
        let ghost s1 = self.table.entrees_vue();
        proof {
            let i = choose |i: int| 0 <= i < s0.len() && (#[trigger] s0[i]).0 == c
                && s1 == s0.remove(i);
            lemme_vue_index(s0, i);
            lemme_compte_retrait(s0, i);
        }
        self.table.inserer(c, true);
        proof {
            assert(self.table.entrees_vue().drop_last() =~= s1);
            assert(self@ =~= old(self)@.insert(vue_coord(c), true));
        }
    }

    /// Counts the unvisited cells.
    pub fn compter_non_visitees(&self) -> (n: usize)
        requires
            self.bien_formee(),
        ensures
            n == self.compte(),
    {
        let ghost s = self.table.entrees_vue();
        let mut n: usize = 0;
        let mut i: usize = 0;
        while i < self.table.longueur()
            invariant
                i <= s.len(),
                s == self.table.entrees_vue(),
                self.bien_formee(),
                n <= i,
                n == compte_seq(s.subrange(0, i as int)),
            decreases s.len() - i,
        {
            proof {
                assert(s.subrange(0, i as int + 1).drop_last() =~= s.subrange(0, i as int));
                assert(s.subrange(0, i as int + 1).last() == s[i as int]);
            }
            if !self.table.entree_valeur(i) {
                n += 1;
            }
            i += 1;
        }
        proof {
            assert(s.subrange(0, s.len() as int) =~= s);
        }
        n
    }

    /// Lists the unvisited cells.
    pub fn celles_non_visitees(&self) -> (r: Vec<(i32, i32)>)
        requires
            self.bien_formee(),
        ensures
            forall |j: int| 0 <= j < r@.len()
                ==> self@.contains_key(vue_coord(#[trigger] r@[j])) && !self@[vue_coord(r@[j])],
            forall |c: (int, int)| self@.contains_key(c) && !self@[c] ==> contient_coord(r@, c),
    {
        let ghost s = self.table.entrees_vue();
        let mut r: Vec<(i32, i32)> = Vec::new();
        let mut i: usize = 0;
        while i < self.table.longueur()
            invariant
                i <= s.len(),
                s == self.table.entrees_vue(),
                self.bien_formee(),
                forall |j: int| 0 <= j < r@.len()
                    ==> self@.contains_key(vue_coord(#[trigger] r@[j])) && !self@[vue_coord(r@[j])],
                forall |k: int| 0 <= k < i && !(#[trigger] s[k]).1
                    ==> contient_coord(r@, vue_coord(s[k].0)),
            decreases s.len() - i,
        {
            if !self.table.entree_valeur(i) {
                proof {
                    lemme_vue_index(s, i as int);
                }
                let cle = self.table.entree_cle(i);
                let ghost r0 = r@;
                r.push(cle);
                proof {
                    assert forall |j: int| 0 <= j < r@.len()
                        implies self@.contains_key(vue_coord(#[trigger] r@[j]))
                            && !self@[vue_coord(r@[j])] by {
                        if j < r@.len() - 1 {
                            assert(r@[j] == r0[j]);
                        } else {
                            assert(r@[j] == cle);
                        }
                    }
                    assert forall |k: int| 0 <= k < i as int + 1 && !(#[trigger] s[k]).1
                        implies contient_coord(r@, vue_coord(s[k].0)) by {
                        if k < i as int {
                            let j = choose |j: int| 0 <= j < r0.len()
                                && vue_coord(#[trigger] r0[j]) == vue_coord(s[k].0);
                            assert(r@[j] == r0[j]);
                            assert(vue_coord(r@[j]) == vue_coord(s[k].0));
                        } else {
                            assert(r@[r@.len() - 1] == cle);
                            assert(vue_coord(r@[r@.len() - 1]) == vue_coord(s[k].0));
                        }
                    }
                }
            } else {
                proof {
                    assert forall |k: int| 0 <= k < i as int + 1 && !(#[trigger] s[k]).1
                        implies contient_coord(r@, vue_coord(s[k].0)) by {
                    }
                }
            }
            i += 1;
        }
        proof {
            assert forall |c: (int, int)| self@.contains_key(c) && !self@[c]
                implies contient_coord(r@, c) by {
                lemme_vue_contient(s, c);
                let k = choose |k: int| 0 <= k < s.len() && vue_coord((#[trigger] s[k]).0) == c;
                lemme_vue_index(s, k);
            }
        }
        r
    }

    /// If no unvisited cell is counted, every cell is visited.
    pub proof fn lemme_compte_nul(&self)
        requires
            self.bien_formee(),
            self.compte() == 0,
        ensures
            forall |c: (int, int)| self@.contains_key(c) ==> self@[c],
    {
        let s = self.table.entrees_vue();
        assert forall |c: (int, int)| self@.contains_key(c) implies self@[c] by {
            lemme_vue_contient(s, c);
            let k = choose |k: int| 0 <= k < s.len() && vue_coord((#[trigger] s[k]).0) == c;
            lemme_vue_index(s, k);
            if !s[k].1 {
                lemme_compte_entree_fausse(s, k);
            }
        }
    }

    /// A positive count names an unvisited cell.
    pub proof fn lemme_temoin_non_visitee(&self)
        requires
            self.bien_formee(),
            self.compte() > 0,
        ensures
            exists |c: (int, int)| self@.contains_key(c) && !self@[c],
    {
        let s = self.table.entrees_vue();
        lemme_compte_positif_indice(s);
        let i = choose |i: int| 0 <= i < s.len() && !(#[trigger] s[i]).1;
        lemme_vue_index(s, i);
        assert(self@.contains_key(vue_coord(s[i].0)) && !self@[vue_coord(s[i].0)]);
    }

    /// An unvisited cell keeps the count positive.
    pub proof fn lemme_compte_positif(&self, c: (int, int))
        requires
            self.bien_formee(),
            self@.contains_key(c),
            !self@[c],
        ensures
            self.compte() >= 1,
    {
        let s = self.table.entrees_vue();
        lemme_vue_contient(s, c);
        let k = choose |k: int| 0 <= k < s.len() && vue_coord((#[trigger] s[k]).0) == c;
        lemme_vue_index(s, k);
        lemme_compte_entree_fausse(s, k);
    }
}

} // verus!
