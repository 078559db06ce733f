use vstd::prelude::*;
use crate::erreur::Erreur;
use crate::fingerprint::{empreinte_valide, toutes_valides, verifier_empreintes};
use crate::matcher::{
    aligner, decalages, decision, elire, votes_de, vue_occurrences, vue_votes, MatchResult,
};

verus! {

/// What the index is asked to do.
#[derive(Debug, Clone, Copy, PartialEq, Eq)]
pub enum Commande {
    Inserer,
    Reconnaitre,
}

/// A query is recognised as a song only with this many votes for one offset
/// into that song.
pub const MIN_CORRESPONDANCES: usize = 800;

/// A connection of the `rusqlite` crate, which Verus carries through unread.
#[verifier::external_type_specification]
#[verifier::external_body]
pub struct ExConnection(rusqlite::Connection);

/// A transaction of the `rusqlite` crate; dropping it uncommitted rolls it back.
#[verifier::external_type_specification]
#[verifier::external_body]
pub struct ExTransaction<'conn>(rusqlite::Transaction<'conn>);

/// A prepared statement of the `rusqlite` crate.
#[verifier::external_type_specification]
#[verifier::external_body]
pub struct ExStatement<'conn>(rusqlite::Statement<'conn>);

/// The error type of the `rusqlite` crate.
#[verifier::external_type_specification]
#[verifier::external_body]
pub struct ExError(rusqlite::Error);

/// Whether a path can be handed to the storage engine at all: it holds no
/// NUL character, which would end it early.
pub open spec fn chemin_transmissible(chemin: Seq<char>) -> bool {
    !chemin.contains('\0')
}

/// `rusqlite::Connection::open`. The contract claims that a path with a NUL
/// character in it is refused: the crate turns the path into a C string
/// first and gives up if it cannot. For any other path what comes back
/// depends on the file system, and nothing is claimed of it.
#[verifier::external_body]
fn ouvrir(chemin: &str) -> (r: Result<rusqlite::Connection, rusqlite::Error>)
    ensures
        !chemin_transmissible(chemin@) ==> r is Err,
{
    rusqlite::Connection::open(chemin)
}

/// `rusqlite::Connection::execute` on a statement without parameters.
/// Nothing is claimed of the number of rows changed, nor of success.
#[verifier::external_body]
fn executer(connexion: &rusqlite::Connection, sql: &str) -> (r: Result<usize, rusqlite::Error>) {
    connexion.execute(sql, ())
}

/// `rusqlite::Connection::transaction`. Nothing is claimed of the result.
#[verifier::external_body]
fn demarrer_transaction<'a>(connexion: &'a mut rusqlite::Connection) -> (r: Result<
    rusqlite::Transaction<'a>,
    rusqlite::Error,
>) {
    connexion.transaction()
}

/// `rusqlite::Connection::execute`, through a transaction, on a statement
/// with one text and four integer parameters. Nothing is claimed of the
/// number of rows changed, nor of success.
#[verifier::external_body]
fn executer_insertion(
    transaction: &rusqlite::Transaction<'_>,
    sql: &str,
    id_chanson: &str,
    freq_ancre: i64,
    freq_cible: i64,
    delta_temps: i64,
    temps_ancre: i64,
) -> (r: Result<usize, rusqlite::Error>) {
    transaction.execute(sql, (id_chanson, freq_ancre, freq_cible, delta_temps, temps_ancre))
}

/// `rusqlite::Transaction::commit`. Nothing is claimed of the result.
#[verifier::external_body]
fn valider(transaction: rusqlite::Transaction<'_>) -> (r: Result<(), rusqlite::Error>) {
    transaction.commit()
}

/// `rusqlite::Connection::prepare`. Nothing is claimed of the result.
#[verifier::external_body]
fn preparer<'a>(connexion: &'a rusqlite::Connection, sql: &str) -> (r: Result<
    rusqlite::Statement<'a>,
    rusqlite::Error,
>) {
    connexion.prepare(sql)
}

/// `rusqlite::Statement::query_map` with three integer parameters, each row
/// read as a text and an integer with `rusqlite::Row::get`. The rows depend
/// on what the database holds, so nothing is claimed of them.
#[verifier::external_body]
fn lire_occurrences(
    requete: &mut rusqlite::Statement<'_>,
    freq_ancre: i64,
    freq_cible: i64,
    delta_temps: i64,
) -> (r: Result<Vec<(String, i64)>, rusqlite::Error>) {
    let lignes = requete.query_map(
        (freq_ancre, freq_cible, delta_temps),
        |ligne| Ok((ligne.get(0)?, ligne.get(1)?)),
    )?;
    lignes.collect()
}

/// Opens the database at `chemin` and makes sure that the table of
/// fingerprints and its index on the three key fields exist. A path that
/// cannot be handed to the storage engine is refused; for any other the
/// storage engine decides, and every failure is a failure of the storage.
pub fn initialiser_db(chemin: &str) -> (r: Result<rusqlite::Connection, Erreur>)
    ensures
        !chemin_transmissible(chemin@) ==> r is Err,
        r is Err ==> r->Err_0 is StorageFailure,
{
    let connexion = match ouvrir(chemin) {
        Ok(c) => c,
        Err(e) => {
            return Err(Erreur::StorageFailure(e));
        },
    };
    match executer(
        &connexion,
        "CREATE TABLE IF NOT EXISTS empreintes (
            id INTEGER PRIMARY KEY,
            id_chanson TEXT,
            freq_ancre INTEGER,
            freq_cible INTEGER,
            delta_temps INTEGER,
            temps_ancre INTEGER
        )",
    ) {
        Ok(_) => {},
        Err(e) => {
            return Err(Erreur::StorageFailure(e));
        },
    }
    match executer(
        &connexion,
        "CREATE INDEX IF NOT EXISTS idx_empreintes ON empreintes(freq_ancre, freq_cible, delta_temps)",
    ) {
        Ok(_) => {},
        Err(e) => {
            return Err(Erreur::StorageFailure(e));
        },
    }
    Ok(connexion)
}

/// The four numbers written for a fingerprint: its two bins, the time
/// between its peaks and its anchor time, as the storage engine takes them.
pub fn ligne_a_ecrire(e: (usize, usize, usize, usize)) -> (l: (i64, i64, i64, i64))
    ensures
        empreinte_valide(e) ==> l.0 == e.0 && l.1 == e.1 && l.2 == e.2 && l.3 == e.3,
{
    (e.0 as i64, e.1 as i64, e.2 as i64, e.3 as i64)
}

/// The three numbers by which a fingerprint is looked up: its two bins and
/// the time between its peaks, as the storage engine takes them.
pub fn cle_recherche(e: (usize, usize, usize, usize)) -> (k: (i64, i64, i64))
    ensures
        empreinte_valide(e) ==> k.0 == e.0 && k.1 == e.1 && k.2 == e.2,
{
    (e.0 as i64, e.1 as i64, e.2 as i64)
}

/// The occurrences that a lookup found, as the contracts speak of them;
/// none if the lookup failed.
pub open spec fn occurrences_trouvees(
    recherche: Result<Vec<(String, i64)>, rusqlite::Error>,
) -> Seq<(Seq<char>, i64)> {
    match recherche {
        Ok(occurrences) => vue_occurrences(occurrences@),
        Err(_) => Seq::empty(),
    }
}

/// Takes what one lookup gave. The occurrences that were found vote, each
/// for its song at the offset between its anchor time and the query's. A
/// lookup that failed casts no vote and ends in its own failure, as a
/// failure of the storage.
pub fn voter(
    temps_ancre: u32,
    recherche: Result<Vec<(String, i64)>, rusqlite::Error>,
    votes: &mut Vec<(String, i128)>,
) -> (r: Result<(), Erreur>)
    ensures
        match recherche {
            Ok(occurrences) => r is Ok && vue_votes(final(votes)@) == vue_votes(old(votes)@)
                + decalages(temps_ancre as int, vue_occurrences(occurrences@)),
            Err(cause) => r == Err::<(), Erreur>(Erreur::StorageFailure(cause)) && final(votes)@
                == old(votes)@,
        },
{
    match recherche {
        Ok(occurrences) => {
            aligner(temps_ancre, &occurrences, votes);
            Ok(())
        },
        Err(cause) => Err(Erreur::StorageFailure(cause)),
    }
}

/// Stores the fingerprints of one song, all of them or none: they are
/// written inside one transaction, which is committed only after the last
/// one, and given up if any step fails. A list that holds a fingerprint
/// that does not fit the stored record is refused before anything is written.
pub fn inserer_empreintes(
    connexion: &mut rusqlite::Connection,
    id_chanson: &str,
    empreintes: &Vec<(usize, usize, usize, usize)>,
) -> (r: Result<(), Erreur>)
    ensures
        !toutes_valides(empreintes@) ==> r matches Err(Erreur::InvalidInput),
        toutes_valides(empreintes@) && r is Err ==> r->Err_0 is StorageFailure,
{
    if !verifier_empreintes(empreintes) {
        return Err(Erreur::InvalidInput);
    }
    let transaction = match demarrer_transaction(connexion) {
        Ok(t) => t,
        Err(e) => {
            return Err(Erreur::StorageFailure(e));
        },
    };
    let n: usize = empreintes.len();
    let mut i: usize = 0;
    while i < n
        invariant
            i <= n,
            n == empreintes.len(),
            toutes_valides(empreintes@),
        decreases n - i,
    {
        let ligne: (i64, i64, i64, i64) = ligne_a_ecrire(empreintes[i]);
        match executer_insertion(
            &transaction,
            "INSERT INTO empreintes (id_chanson, freq_ancre, freq_cible, delta_temps, temps_ancre) VALUES (?1, ?2, ?3, ?4, ?5)",
            id_chanson,
            ligne.0,
            ligne.1,
            ligne.2,
            ligne.3,
        ) {
            Ok(_) => {},
            Err(e) => {
                return Err(Erreur::StorageFailure(e));
            },
        }
        i += 1;
    }
    match valider(transaction) {
        Ok(()) => Ok(()),
        Err(e) => Err(Erreur::StorageFailure(e)),
    }
}

/// Recognises a query: looks up the key of each of its fingerprints, lets
/// every stored occurrence vote for its song at the offset between the two
/// anchor times, and gives the verdict on all the votes. A lookup that fails
/// ends the recognition with that failure, never with a verdict.
pub fn trouver_correspondances(
    connexion: &rusqlite::Connection,
    empreintes_recherche: &Vec<(usize, usize, usize, usize)>,
) -> (r: Result<MatchResult, Erreur>)
    ensures
        !toutes_valides(empreintes_recherche@) ==> r matches Err(Erreur::InvalidInput),
        empreintes_recherche@.len() == 0 ==> r matches Ok(MatchResult::NoMatch),
        toutes_valides(empreintes_recherche@) ==> match r {
            Ok(verdict) => exists|lignes: Seq<Seq<(Seq<char>, i64)>>|
                lignes.len() == empreintes_recherche.len() && decision(
                    #[trigger] votes_de(empreintes_recherche@, lignes),
                    MIN_CORRESPONDANCES as nat,
                    verdict,
                ),
            Err(e) => e is StorageFailure,
        },
{
    if !verifier_empreintes(empreintes_recherche) {
        return Err(Erreur::InvalidInput);
    }
    let n: usize = empreintes_recherche.len();
    let ghost mut lignes: Seq<Seq<(Seq<char>, i64)>> = Seq::empty();
    let mut votes: Vec<(String, i128)> = Vec::new();
    let mut i: usize = 0;
    while i < n
        invariant
            i <= n,
            n == empreintes_recherche.len(),
            toutes_valides(empreintes_recherche@),
            lignes.len() == i,
            vue_votes(votes@) == votes_de(empreintes_recherche@.take(i as int), lignes),
        decreases n - i,
    {
        let e: (usize, usize, usize, usize) = empreintes_recherche[i];
        assert(empreinte_valide(empreintes_recherche@[i as int]));
        let cle: (i64, i64, i64) = cle_recherche(e);
        let recherche = match preparer(
            connexion,
            "SELECT id_chanson, temps_ancre FROM empreintes WHERE freq_ancre = ?1 AND freq_cible = ?2 AND delta_temps = ?3",
        ) {
            Ok(mut requete) => lire_occurrences(&mut requete, cle.0, cle.1, cle.2),
            Err(cause) => Err(cause),
        };
        let ghost trouvees = occurrences_trouvees(recherche);
        match voter(e.3 as u32, recherche, &mut votes) {
            Ok(()) => {},
            Err(echec) => {
                return Err(echec);
            },
        }
        proof {
            let suivantes = lignes.push(trouvees);
            let prefixe = empreintes_recherche@.take(i + 1);
            assert(prefixe.drop_last() == empreintes_recherche@.take(i as int));
            assert(suivantes.drop_last() == lignes);
            lignes = suivantes;
        }
        i += 1;
    }
    assert(empreintes_recherche@.take(n as int) == empreintes_recherche@);
    Ok(elire(&votes, MIN_CORRESPONDANCES))
}

/// The words for a verdict, which are the song's name, or that none was found.
pub open spec fn texte_verdict(verdict: MatchResult) -> Seq<char> {
    match verdict {
        MatchResult::Matched { song_id, vote_count } => song_id@,
        MatchResult::NoMatch => "Aucune correspondance trouvée"@,
    }
}

/// Puts a verdict in words, which are the song's name, or that none was found.
pub fn dire_verdict(verdict: MatchResult) -> (texte: String)
    ensures
        texte@ == texte_verdict(verdict),
{
    match verdict {
        MatchResult::Matched { song_id, vote_count } => song_id,
        MatchResult::NoMatch => "Aucune correspondance trouvée".to_owned(),
    }
}

/// The name given with a command, if any, as the contracts speak of it.
pub open spec fn vue_nom(id_chanson: Option<&str>) -> Option<Seq<char>> {
    match id_chanson {
        Some(id) => Some(id@),
        None => None,
    }
}

/// Whether an insertion names its song: a name is there and is not empty.
pub open spec fn chanson_nommee(id_chanson: Option<Seq<char>>) -> bool {
    id_chanson matches Some(id) && id.len() > 0
}

/// Whether `r` is a fitting answer to a command on these fingerprints. An
/// insertion without the name of a song fails as such, before anything
/// else is looked at; fingerprints that do not fit the stored record are
/// refused; a query without fingerprints finds nothing, whatever the index
/// holds; past that only the storage can fail. A successful insertion
/// says so; a successful recognition is the verdict, put in words, on the
/// votes of some occurrences looked up for each fingerprint.
pub open spec fn reponse_attendue(
    commande: Commande,
    id_chanson: Option<Seq<char>>,
    empreintes: Seq<(usize, usize, usize, usize)>,
    r: Result<String, Erreur>,
) -> bool {
    if commande is Inserer && !chanson_nommee(id_chanson) {
        r matches Err(Erreur::MissingSongIdentifier)
    } else if !toutes_valides(empreintes) {
        r matches Err(Erreur::InvalidInput)
    } else if commande is Reconnaitre && empreintes.len() == 0 {
        r matches Ok(texte) && texte@ == texte_verdict(MatchResult::NoMatch)
    } else {
        match r {
            Ok(texte) => match commande {
                Commande::Inserer => texte@ == "Empreintes insérées avec succès"@,
                Commande::Reconnaitre => exists|
                    lignes: Seq<Seq<(Seq<char>, i64)>>,
                    verdict: MatchResult,
                |
                    lignes.len() == empreintes.len() && decision(
                        #[trigger] votes_de(empreintes, lignes),
                        MIN_CORRESPONDANCES as nat,
                        verdict,
                    ) && texte@ == #[trigger] texte_verdict(verdict),
            },
            Err(e) => e is StorageFailure,
        }
    }
}

/// Carries out one command on the index and answers in words. An insertion
/// needs the name of the song and stores the fingerprints under it; a
/// recognition answers with the name of the song found, or says that
/// there is none.
pub fn utiliser_db(
    connexion: &mut rusqlite::Connection,
    commande: Commande,
    id_chanson: Option<&str>,
    empreintes: &Vec<(usize, usize, usize, usize)>,
) -> (r: Result<String, Erreur>)
    ensures
        reponse_attendue(commande, vue_nom(id_chanson), empreintes@, r),
{
    match commande {
        Commande::Inserer => {
            let id: &str = match id_chanson {
                Some(id) => id,
                None => {
                    return Err(Erreur::MissingSongIdentifier);
                },
            };
            if id.is_empty() {
                return Err(Erreur::MissingSongIdentifier);
            }
            match inserer_empreintes(connexion, id, empreintes) {
                Ok(()) => Ok("Empreintes insérées avec succès".to_owned()),
                Err(e) => Err(e),
            }
        },
        Commande::Reconnaitre => {
            match trouver_correspondances(connexion, empreintes) {
                Ok(verdict) => Ok(dire_verdict(verdict)),
                Err(e) => Err(e),
            }
        },
    }
}

} // verus!
