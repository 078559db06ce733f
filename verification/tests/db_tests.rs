use empreintes::db::{
    cle_recherche, dire_verdict, initialiser_db, inserer_empreintes, ligne_a_ecrire,
    trouver_correspondances, utiliser_db, voter, Commande, MIN_CORRESPONDANCES,
};
use empreintes::erreur::Erreur;
use empreintes::matcher::MatchResult;

fn lignes_stockees(connexion: &rusqlite::Connection) -> i64 {
    connexion.query_row("SELECT COUNT(*) FROM empreintes", (), |ligne| ligne.get(0)).unwrap()
}

fn chanson(graine: usize, nombre: usize) -> Vec<(usize, usize, usize, usize)> {
    (0..nombre)
        .map(|i| ((i * 31 + graine * 7) % 512, (i * 17 + graine * 3) % 512, 1 + i % 3, i / 2))
        .collect()
}

#[test]
fn the_usual_threshold() {
    assert_eq!(MIN_CORRESPONDANCES, 800);
}

#[test]
fn a_new_database_has_an_empty_table() {
    let connexion = initialiser_db(":memory:").unwrap();
    assert_eq!(lignes_stockees(&connexion), 0);
}

#[test]
fn a_database_that_cannot_be_opened_is_a_storage_failure() {
    let r = initialiser_db("/no/such/directory/anywhere/empreintes.db");
    assert!(matches!(r, Err(Erreur::StorageFailure(_))));
}

#[test]
fn a_path_with_a_nul_character_is_refused() {
    assert!(matches!(initialiser_db("empreintes\0.db"), Err(Erreur::StorageFailure(_))));
    assert!(matches!(initialiser_db("\0"), Err(Erreur::StorageFailure(_))));
    assert!(matches!(initialiser_db(":memory:\0"), Err(Erreur::StorageFailure(_))));
}

#[test]
fn inserted_fingerprints_are_stored_with_their_song() {
    let mut connexion = initialiser_db(":memory:").unwrap();
    let empreintes = vec![(100, 200, 10, 0), (100, 200, 10, 7), (1, 2, 3, 4)];
    inserer_empreintes(&mut connexion, "s", &empreintes).unwrap();
    assert_eq!(lignes_stockees(&connexion), 3);
    let temps: Vec<i64> = {
        let mut requete = connexion
            .prepare("SELECT temps_ancre FROM empreintes WHERE id_chanson = 's' AND freq_ancre = 100 AND freq_cible = 200 AND delta_temps = 10 ORDER BY temps_ancre")
            .unwrap();
        let lignes = requete.query_map((), |ligne| ligne.get(0)).unwrap();
        lignes.map(|l| l.unwrap()).collect()
    };
    assert_eq!(temps, vec![0, 7]);
}

#[test]
fn fingerprints_that_do_not_fit_are_refused_and_nothing_is_written() {
    let mut connexion = initialiser_db(":memory:").unwrap();
    let empreintes = vec![(1, 2, 3, 4), (70_000, 2, 3, 4)];
    assert!(matches!(inserer_empreintes(&mut connexion, "s", &empreintes), Err(Erreur::InvalidInput)));
    assert_eq!(lignes_stockees(&connexion), 0);
    assert!(matches!(trouver_correspondances(&connexion, &empreintes), Err(Erreur::InvalidInput)));
}

#[test]
fn a_failed_insertion_leaves_nothing_behind() {
    let mut connexion = initialiser_db(":memory:").unwrap();
    connexion
        .execute_batch(
            "CREATE TRIGGER refus BEFORE INSERT ON empreintes WHEN NEW.temps_ancre = 99
             BEGIN SELECT RAISE(ABORT, 'refus'); END;",
        )
        .unwrap();
    let empreintes = vec![(1, 2, 3, 4), (5, 6, 7, 8), (9, 10, 11, 99), (1, 1, 1, 1)];
    assert!(matches!(inserer_empreintes(&mut connexion, "s", &empreintes), Err(Erreur::StorageFailure(_))));
    assert_eq!(lignes_stockees(&connexion), 0);
    inserer_empreintes(&mut connexion, "s", &empreintes[..2].to_vec()).unwrap();
    assert_eq!(lignes_stockees(&connexion), 2);
}

#[test]
fn an_insertion_needs_the_name_of_the_song() {
    let mut connexion = initialiser_db(":memory:").unwrap();
    let empreintes = chanson(1, 10);
    assert!(matches!(
        utiliser_db(&mut connexion, Commande::Inserer, None, &empreintes),
        Err(Erreur::MissingSongIdentifier)
    ));
    assert!(matches!(
        utiliser_db(&mut connexion, Commande::Inserer, Some(""), &empreintes),
        Err(Erreur::MissingSongIdentifier)
    ));
    assert!(matches!(
        utiliser_db(&mut connexion, Commande::Inserer, None, &vec![(70_000, 0, 0, 0)]),
        Err(Erreur::MissingSongIdentifier)
    ));
    assert_eq!(lignes_stockees(&connexion), 0);
}

#[test]
fn an_insertion_says_that_it_succeeded() {
    let mut connexion = initialiser_db(":memory:").unwrap();
    let r = utiliser_db(&mut connexion, Commande::Inserer, Some("s"), &chanson(1, 10)).unwrap();
    assert_eq!(r, "Empreintes insérées avec succès");
    assert_eq!(lignes_stockees(&connexion), 10);
}

#[test]
fn a_recognition_needs_no_name() {
    let mut connexion = initialiser_db(":memory:").unwrap();
    let r = utiliser_db(&mut connexion, Commande::Reconnaitre, None, &chanson(1, 10)).unwrap();
    assert_eq!(r, "Aucune correspondance trouvée");
    let r = utiliser_db(&mut connexion, Commande::Reconnaitre, Some("s"), &Vec::new()).unwrap();
    assert_eq!(r, "Aucune correspondance trouvée");
}

#[test]
fn a_stored_song_is_recognised_from_its_own_fingerprints() {
    let mut connexion = initialiser_db(":memory:").unwrap();
    inserer_empreintes(&mut connexion, "premiere", &chanson(1, 3000)).unwrap();
    inserer_empreintes(&mut connexion, "seconde", &chanson(2, 3000)).unwrap();
    match trouver_correspondances(&connexion, &chanson(2, 3000)).unwrap() {
        MatchResult::Matched { song_id, vote_count } => {
            assert_eq!(song_id, "seconde");
            assert!(vote_count >= 3000);
        }
        MatchResult::NoMatch => panic!("no match"),
    }
    let r = utiliser_db(&mut connexion, Commande::Reconnaitre, None, &chanson(1, 3000)).unwrap();
    assert_eq!(r, "premiere");
}

#[test]
fn a_query_taken_later_in_the_song_is_recognised_at_its_offset() {
    let mut connexion = initialiser_db(":memory:").unwrap();
    let entiere = chanson(5, 4000);
    inserer_empreintes(&mut connexion, "s", &entiere).unwrap();
    for debut in [100usize, 731] {
        let extrait: Vec<(usize, usize, usize, usize)> = entiere
            .iter()
            .filter(|e| e.3 >= debut && e.3 < debut + 600)
            .map(|e| (e.0, e.1, e.2, e.3 - debut))
            .collect();
        assert_eq!(extrait.len(), 1200);
        match trouver_correspondances(&connexion, &extrait).unwrap() {
            MatchResult::Matched { song_id, vote_count } => {
                assert_eq!(song_id, "s");
                assert!(vote_count >= 1200);
            }
            MatchResult::NoMatch => panic!("no match"),
        }
    }
}

#[test]
fn too_few_aligned_votes_are_no_match() {
    let mut connexion = initialiser_db(":memory:").unwrap();
    let entiere = chanson(5, 4000);
    inserer_empreintes(&mut connexion, "s", &entiere).unwrap();
    let court: Vec<(usize, usize, usize, usize)> = entiere[..300].to_vec();
    assert_eq!(trouver_correspondances(&connexion, &court).unwrap(), MatchResult::NoMatch);
    let ailleurs: Vec<(usize, usize, usize, usize)> =
        (0..3000).map(|i| (600 + i % 100, 700 + i % 50, 9, i)).collect();
    assert_eq!(trouver_correspondances(&connexion, &ailleurs).unwrap(), MatchResult::NoMatch);
}

#[test]
fn a_lookup_that_fails_is_a_storage_failure_and_never_no_match() {
    let connexion = rusqlite::Connection::open_in_memory().unwrap();
    let r = trouver_correspondances(&connexion, &chanson(1, 5));
    assert!(matches!(r, Err(Erreur::StorageFailure(_))));
    let mut connexion = connexion;
    let r = utiliser_db(&mut connexion, Commande::Reconnaitre, None, &chanson(1, 5));
    assert!(matches!(r, Err(Erreur::StorageFailure(_))));
    let r = utiliser_db(&mut connexion, Commande::Inserer, Some("s"), &chanson(1, 5));
    assert!(matches!(r, Err(Erreur::StorageFailure(_))));
}

#[test]
fn a_query_without_fingerprints_finds_nothing_whatever_the_database() {
    let connexion = rusqlite::Connection::open_in_memory().unwrap();
    assert_eq!(trouver_correspondances(&connexion, &Vec::new()).unwrap(), MatchResult::NoMatch);
}

#[test]
fn a_verdict_in_words() {
    assert_eq!(dire_verdict(MatchResult::NoMatch), "Aucune correspondance trouvée");
    let trouve = MatchResult::Matched { song_id: "la chanson".to_string(), vote_count: 900 };
    assert_eq!(dire_verdict(trouve), "la chanson");
}

#[test]
fn the_row_written_for_a_fingerprint() {
    assert_eq!(ligne_a_ecrire((100, 200, 10, 7)), (100, 200, 10, 7));
    assert_eq!(ligne_a_ecrire((0, 0, 0, 0)), (0, 0, 0, 0));
    assert_eq!(
        ligne_a_ecrire((0xFFFF, 0xFFFF, 0xFFFF, 0xFFFF_FFFF)),
        (65_535, 65_535, 65_535, 4_294_967_295)
    );
}

#[test]
fn the_key_looked_up_for_a_fingerprint() {
    assert_eq!(cle_recherche((100, 200, 10, 7)), (100, 200, 10));
    assert_eq!(cle_recherche((1, 2, 3, 4_000_000_000)), (1, 2, 3));
    assert_eq!(cle_recherche((0xFFFF, 0, 0xFFFF, 0)), (65_535, 0, 65_535));
}

#[test]
fn a_lookup_votes_only_under_its_own_key() {
    let mut connexion = initialiser_db(":memory:").unwrap();
    let empreintes = vec![(100, 200, 10, 5), (200, 100, 10, 6), (100, 200, 11, 7), (10, 200, 100, 8)];
    inserer_empreintes(&mut connexion, "s", &empreintes).unwrap();
    let colonnes: (i64, i64, i64, i64) = connexion
        .query_row(
            "SELECT freq_ancre, freq_cible, delta_temps, temps_ancre FROM empreintes WHERE temps_ancre = 8",
            (),
            |ligne| Ok((ligne.get(0)?, ligne.get(1)?, ligne.get(2)?, ligne.get(3)?)),
        )
        .unwrap();
    assert_eq!(colonnes, (10, 200, 100, 8));
    let requete: Vec<(usize, usize, usize, usize)> = (0..800).map(|_| (100, 200, 10, 2)).collect();
    match trouver_correspondances(&connexion, &requete).unwrap() {
        MatchResult::Matched { song_id, vote_count } => {
            assert_eq!(song_id, "s");
            assert_eq!(vote_count, 800);
        }
        MatchResult::NoMatch => panic!("no match"),
    }
    let requete: Vec<(usize, usize, usize, usize)> = (0..800).map(|_| (200, 200, 10, 2)).collect();
    assert_eq!(trouver_correspondances(&connexion, &requete).unwrap(), MatchResult::NoMatch);
}

#[test]
fn the_occurrences_of_a_lookup_vote() {
    let mut votes = vec![("c".to_string(), 1i128)];
    let recherche = Ok(vec![("a".to_string(), 10i64), ("b".to_string(), 3)]);
    assert!(voter(4, recherche, &mut votes).is_ok());
    assert_eq!(
        votes,
        vec![("c".to_string(), 1i128), ("a".to_string(), 6), ("b".to_string(), -1)]
    );
    assert!(voter(4, Ok(Vec::new()), &mut votes).is_ok());
    assert_eq!(votes.len(), 3);
}

#[test]
fn a_failed_lookup_casts_no_vote_and_is_a_storage_failure() {
    let mut votes = vec![("c".to_string(), 1i128)];
    let r = voter(4, Err(rusqlite::Error::QueryReturnedNoRows), &mut votes);
    match r {
        Err(Erreur::StorageFailure(cause)) => assert_eq!(cause, rusqlite::Error::QueryReturnedNoRows),
        autre => panic!("{:?}", autre),
    }
    assert_eq!(votes, vec![("c".to_string(), 1i128)]);
}

#[test]
fn a_lookup_that_fails_midway_gives_no_verdict() {
    let mut connexion = initialiser_db(":memory:").unwrap();
    let chanson_entiere = chanson(3, 2000);
    inserer_empreintes(&mut connexion, "s", &chanson_entiere).unwrap();
    assert!(matches!(
        trouver_correspondances(&connexion, &chanson_entiere).unwrap(),
        MatchResult::Matched { .. }
    ));
    connexion
        .execute("UPDATE empreintes SET temps_ancre = 'tard' WHERE temps_ancre = 999", ())
        .unwrap();
    let r = trouver_correspondances(&connexion, &chanson_entiere);
    assert!(matches!(r, Err(Erreur::StorageFailure(_))));
}
