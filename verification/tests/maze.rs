use labyrinthe::ErreurLabyrinthe;
use labyrinthe::doors::{get_next_room, invert_orientation};
use labyrinthe::labyrinthe::{Labyrinthe, RapportDeplacement, RapportRetour};
use labyrinthe::piece::{Orientation, Piece, TypePiece};

/// Every coordinate reachable from the origin by walking through doors.
fn pieces_accessibles(l: &Labyrinthe) -> Vec<(i32, i32)> {
    let mut vus: Vec<(i32, i32)> = vec![(0, 0)];
    let mut pile: Vec<(i32, i32)> = vec![(0, 0)];
    while let Some(c) = pile.pop() {
        let piece = l.piece_en(c).expect("une porte mene vers le vide");
        for d in &piece.orientations {
            let suivant = get_next_room(c, *d);
            if !vus.contains(&suivant) {
                vus.push(suivant);
                pile.push(suivant);
            }
        }
    }
    vus
}

#[test]
fn connexite_roles_et_portes() {
    for graine in [0u64, 1, 7, 42, 1234] {
        for (w, h) in [(2i32, 2i32), (3, 3), (2, 5), (6, 4)] {
            let l = Labyrinthe::new(w, h, graine);
            let accessibles = pieces_accessibles(&l);
            // every room of the rectangle is reachable from the start
            for x in -(w / 2)..=(w / 2) {
                for y in -(h / 2)..=(h / 2) {
                    assert!(accessibles.contains(&(x, y)));
                }
            }
            // exactly one start room, at the origin, and exactly one end room
            let mut debuts = 0;
            let mut fins = 0;
            for c in &accessibles {
                let p = l.piece_en(*c).unwrap();
                match p.typage_piece {
                    TypePiece::Debut => {
                        debuts += 1;
                        assert_eq!(*c, (0, 0));
                    }
                    TypePiece::Fin => {
                        fins += 1;
                        // the end room sits just outside the rectangle
                        let dehors = c.0 < -(w / 2) || c.0 > w / 2 || c.1 < -(h / 2) || c.1 > h / 2;
                        assert!(dehors);
                        assert!(c.0.abs() <= w / 2 + 1 && c.1.abs() <= h / 2 + 1);
                    }
                    TypePiece::Normal => {}
                }
            }
            assert_eq!(debuts, 1);
            assert_eq!(fins, 1);
            // every door is mutual and door counts fit the roles
            for c in &accessibles {
                let p = l.piece_en(*c).unwrap();
                let n = p.orientations.len();
                match p.typage_piece {
                    TypePiece::Debut => assert_eq!(n, 1),
                    TypePiece::Fin => assert_eq!(n, 1),
                    TypePiece::Normal => assert!(1 <= n && n <= 4),
                }
                for d in &p.orientations {
                    let voisin = get_next_room(*c, *d);
                    let q = l.piece_en(voisin).expect("une porte mene vers le vide");
                    assert!(q.orientations.contains(&invert_orientation(*d)));
                }
            }
        }
    }
}

#[test]
fn aller_puis_revenir_restaure() {
    let mut l = Labyrinthe::new(4, 4, 9);
    // walk a few valid moves first
    for _ in 0..3 {
        let d = l.piece_actuelle().unwrap().orientations[0];
        l.deplacer(d);
    }
    let position_avant = l.position();
    let taille_avant = l.taille_historique();
    let d = l.piece_actuelle().unwrap().orientations[0];
    let rapport = l.deplacer(d);
    assert!(matches!(rapport, RapportDeplacement::Avancee));
    assert_eq!(l.taille_historique(), taille_avant + 1);
    let rapport2 = l.revenir();
    assert!(matches!(rapport2, RapportRetour::Revenu));
    assert_eq!(l.position(), position_avant);
    assert_eq!(l.taille_historique(), taille_avant);
}

#[test]
fn graine_fixe_deterministe() {
    let l1 = Labyrinthe::new(2, 2, 77);
    let l2 = Labyrinthe::new(2, 2, 77);
    for x in -3..=3i32 {
        for y in -3..=3i32 {
            assert_eq!(l1.piece_en((x, y)), l2.piece_en((x, y)));
        }
    }
    let depart = l1.piece_en((0, 0)).expect("pas de piece de depart");
    assert!(matches!(depart.typage_piece, TypePiece::Debut));
    assert_eq!(depart.orientations.len(), 1);
    // following doors from the start eventually reaches the end room
    let accessibles = pieces_accessibles(&l1);
    assert!(accessibles
        .iter()
        .any(|c| matches!(l1.piece_en(*c).unwrap().typage_piece, TypePiece::Fin)));
}

#[test]
fn graines_differentes_donnent_des_labyrinthes_differents() {
    let l1 = Labyrinthe::new(6, 6, 1);
    let l2 = Labyrinthe::new(6, 6, 2);
    let mut difference = false;
    for x in -4..=4i32 {
        for y in -4..=4i32 {
            if l1.piece_en((x, y)) != l2.piece_en((x, y)) {
                difference = true;
            }
        }
    }
    assert!(difference);
}

#[test]
fn deplacement_sans_porte_ne_change_rien() {
    let mut l = Labyrinthe::new(3, 3, 5);
    // the start room has exactly one door: pick a direction it lacks
    let portes = l.piece_actuelle().unwrap().orientations.clone();
    let mut absente = None;
    for d in [Orientation::N, Orientation::S, Orientation::E, Orientation::O] {
        if !portes.contains(&d) {
            absente = Some(d);
        }
    }
    let d = absente.expect("toutes les directions ouvertes");
    let position_avant = l.position();
    let taille_avant = l.taille_historique();
    let rapport = l.deplacer(d);
    assert!(matches!(rapport, RapportDeplacement::PasDePorte));
    assert_eq!(l.position(), position_avant);
    assert_eq!(l.taille_historique(), taille_avant);
}

#[test]
fn retour_sans_historique() {
    let mut l = Labyrinthe::new(3, 3, 11);
    assert_eq!(l.taille_historique(), 0);
    let position_avant = l.position();
    let rapport = l.revenir();
    assert!(matches!(rapport, RapportRetour::HistoriqueVide));
    assert_eq!(l.position(), position_avant);
    assert_eq!(l.taille_historique(), 0);
}

#[test]
fn piece_valide_le_nombre_de_portes() {
    assert!(Piece::new(TypePiece::Debut, vec![Orientation::N]).is_ok());
    assert!(Piece::new(TypePiece::Fin, vec![Orientation::S]).is_ok());
    assert!(Piece::new(TypePiece::Normal, vec![Orientation::N, Orientation::E]).is_ok());
    assert_eq!(
        Piece::new(TypePiece::Debut, vec![]),
        Err(ErreurLabyrinthe::NombrePortesInvalide)
    );
    assert_eq!(
        Piece::new(TypePiece::Fin, vec![Orientation::N, Orientation::S]).err(),
        Some(ErreurLabyrinthe::NombrePortesInvalide)
    );
    assert!(Piece::new(TypePiece::Normal, vec![]).is_err());
    let cinq = vec![
        Orientation::N,
        Orientation::S,
        Orientation::E,
        Orientation::O,
        Orientation::N,
    ];
    assert!(Piece::new(TypePiece::Normal, cinq).is_err());
}

#[test]
fn pas_et_inverse() {
    assert_eq!(get_next_room((0, 0), Orientation::N), (0, -1));
    assert_eq!(get_next_room((0, 0), Orientation::S), (0, 1));
    assert_eq!(get_next_room((2, 3), Orientation::E), (3, 3));
    assert_eq!(get_next_room((2, 3), Orientation::O), (1, 3));
    assert_eq!(invert_orientation(Orientation::N), Orientation::S);
    assert_eq!(invert_orientation(Orientation::E), Orientation::O);
    assert_eq!(invert_orientation(Orientation::S), Orientation::N);
    assert_eq!(invert_orientation(Orientation::O), Orientation::E);
}

#[test]
fn affichage_de_la_piece() {
    let p = Piece::new(TypePiece::Normal, vec![Orientation::N, Orientation::E]).unwrap();
    let grille = p.grille_affichage();
    let attendu = vec![
        vec!['X', 'X', 'o', 'X', 'X'],
        vec!['X', 'X', 'o', 'o', 'o'],
        vec!['X', 'X', 'X', 'X', 'X'],
    ];
    assert_eq!(grille, attendu);
    assert!(p.possede_porte(Orientation::N));
    assert!(p.possede_porte(Orientation::E));
    assert!(!p.possede_porte(Orientation::S));
    assert!(!p.possede_porte(Orientation::O));
}
