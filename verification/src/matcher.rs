//! The matcher. Every stored occurrence of a query fingerprint's key votes
//! for its song at the offset between the stored anchor time and the
//! query's. A true match gathers its votes on one offset, while chance
//! collisions scatter over many; so the votes are counted for each pair of
//! a song and an offset, not for each song.

use std::collections::HashMap;
use vstd::prelude::*;
use vstd::std_specs::hash::group_hash_axioms;

verus! {

broadcast use group_hash_axioms;

/// The verdict of a recognition.
#[derive(Debug, PartialEq, Eq)]
pub enum MatchResult {
    /// The song whose fingerprints line up best with the query, and the
    /// number of query fingerprints that agree on one offset into it.
    Matched { song_id: String, vote_count: usize },
    /// No song gathers enough aligned votes.
    NoMatch,
}

/// The votes as the contracts speak of them: each is the name of a song and
/// the offset of the query into it.
pub open spec fn vue_votes(votes: Seq<(String, i128)>) -> Seq<(Seq<char>, int)> {
    votes.map_values(|v: (String, i128)| (v.0@, v.1 as int))
}

/// The rows of one lookup as the contracts speak of them.
pub open spec fn vue_occurrences(occurrences: Seq<(String, i64)>) -> Seq<(Seq<char>, i64)> {
    occurrences.map_values(|o: (String, i64)| (o.0@, o.1))
}

/// The votes that one query fingerprint casts: one for each stored
/// occurrence of its key, for the occurrence's song at the offset between
/// the stored anchor time and the query's.
pub open spec fn decalages(temps_ancre: int, occurrences: Seq<(Seq<char>, i64)>) -> Seq<
    (Seq<char>, int),
> {
    occurrences.map_values(|o: (Seq<char>, i64)| (o.0, o.1 - temps_ancre))
}

/// All the votes of a query, fingerprint after fingerprint: `lignes` holds
/// for each query fingerprint the stored occurrences of its key.
pub open spec fn votes_de(
    empreintes: Seq<(usize, usize, usize, usize)>,
    lignes: Seq<Seq<(Seq<char>, i64)>>,
) -> Seq<(Seq<char>, int)>
    decreases empreintes.len(),
{
    if empreintes.len() == 0 || lignes.len() == 0 {
        Seq::empty()
    } else {
        votes_de(empreintes.drop_last(), lignes.drop_last()) + decalages(
            empreintes.last().3 as int,
            lignes.last(),
        )
    }
}

/// The number of votes among `votes` that are cast for `candidat`.
pub open spec fn nb_votes(votes: Seq<(Seq<char>, int)>, candidat: (Seq<char>, int)) -> nat
    decreases votes.len(),
{
    if votes.len() == 0 {
        0
    } else {
        nb_votes(votes.drop_last(), candidat) + if votes.last() == candidat {
            1nat
        } else {
            0nat
        }
    }
}

/// Whether the vote at position `i` is the first one cast for the winning
/// candidate: no candidate has more votes, and every candidate first seen
/// earlier has fewer.
pub open spec fn est_gagnant(votes: Seq<(Seq<char>, int)>, i: int) -> bool {
    &&& 0 <= i < votes.len()
    &&& forall|j: int| 0 <= j < i ==> nb_votes(votes, #[trigger] votes[j]) < nb_votes(votes, votes[i])
    &&& forall|j: int|
        i <= j < votes.len() ==> nb_votes(votes, #[trigger] votes[j]) <= nb_votes(votes, votes[i])
}

/// Whether `r` is the verdict on `votes`: the winning candidate's song with
/// its number of votes if that number reaches `seuil`, and no match if no
/// candidate reaches it.
pub open spec fn decision(votes: Seq<(Seq<char>, int)>, seuil: nat, r: MatchResult) -> bool {
    match r {
        MatchResult::Matched { song_id, vote_count } => exists|i: int|
            #![trigger est_gagnant(votes, i)]
            {
                &&& est_gagnant(votes, i)
                &&& votes[i].0 == song_id@
                &&& nb_votes(votes, votes[i]) == vote_count
                &&& vote_count >= seuil
            },
        MatchResult::NoMatch => forall|j: int|
            0 <= j < votes.len() ==> nb_votes(votes, #[trigger] votes[j]) < seuil,
    }
}

/// No candidate has more votes than there are votes.
pub proof fn lemme_votes_bornes(votes: Seq<(Seq<char>, int)>, candidat: (Seq<char>, int))
    ensures
        nb_votes(votes, candidat) <= votes.len(),
    decreases votes.len(),
{
    if votes.len() > 0 {
        lemme_votes_bornes(votes.drop_last(), candidat);
    }
}

/// A candidate that no vote names has no votes.
pub proof fn lemme_votes_absent(votes: Seq<(Seq<char>, int)>, candidat: (Seq<char>, int))
    requires
        forall|j: int| 0 <= j < votes.len() ==> votes[j] != candidat,
    ensures
        nb_votes(votes, candidat) == 0,
    decreases votes.len(),
{
    if votes.len() > 0 {
        lemme_votes_absent(votes.drop_last(), candidat);
    }
}

/// Two verdicts say the same if both find no match, or both find the same
/// song with the same number of votes.
pub open spec fn meme_verdict(a: MatchResult, b: MatchResult) -> bool {
    match (a, b) {
        (
            MatchResult::Matched { song_id: s1, vote_count: v1 },
            MatchResult::Matched { song_id: s2, vote_count: v2 },
        ) => s1@ == s2@ && v1 == v2,
        (MatchResult::NoMatch, MatchResult::NoMatch) => true,
        _ => false,
    }
}

/// Votes with every offset moved by `c`.
pub open spec fn decales(votes: Seq<(Seq<char>, int)>, c: int) -> Seq<(Seq<char>, int)> {
    votes.map_values(|v: (Seq<char>, int)| (v.0, v.1 + c))
}

/// Query fingerprints with every anchor time `c` frames later.
pub open spec fn retardees(empreintes: Seq<(usize, usize, usize, usize)>, c: nat) -> Seq<
    (usize, usize, usize, usize),
> {
    empreintes.map_values(|e: (usize, usize, usize, usize)| (e.0, e.1, e.2, (e.3 + c) as usize))
}

/// There is one winner at most: ties go to the candidate seen first.
pub proof fn lemme_gagnant_unique(votes: Seq<(Seq<char>, int)>, i: int, j: int)
    requires
        est_gagnant(votes, i),
        est_gagnant(votes, j),
    ensures
        i == j,
{
    if i < j {
        assert(nb_votes(votes, votes[j]) <= nb_votes(votes, votes[i]));
    } else if j < i {
        assert(nb_votes(votes, votes[i]) <= nb_votes(votes, votes[j]));
    }
}

/// The verdict is a function of the votes and the threshold: two verdicts
/// on the same votes say the same.
pub proof fn lemme_verdict_unique(
    votes: Seq<(Seq<char>, int)>,
    seuil: nat,
    a: MatchResult,
    b: MatchResult,
)
    requires
        decision(votes, seuil, a),
        decision(votes, seuil, b),
    ensures
        meme_verdict(a, b),
{
    match (a, b) {
        (
            MatchResult::Matched { song_id: s1, vote_count: v1 },
            MatchResult::Matched { song_id: s2, vote_count: v2 },
        ) => {
            let i = choose|i: int|
                #![trigger est_gagnant(votes, i)]
                est_gagnant(votes, i) && votes[i].0 == s1@ && nb_votes(votes, votes[i]) == v1 && v1
                    >= seuil;
            let j = choose|j: int|
                #![trigger est_gagnant(votes, j)]
                est_gagnant(votes, j) && votes[j].0 == s2@ && nb_votes(votes, votes[j]) == v2 && v2
                    >= seuil;
            lemme_gagnant_unique(votes, i, j);
        },
        _ => {},
    }
}

/// A query is rejected exactly when no pair of a song and an offset gathers
/// as many votes as the threshold asks for; a match carries at least that
/// many votes, and no candidate has more than the match.
pub proof fn lemme_rejet(votes: Seq<(Seq<char>, int)>, seuil: nat, r: MatchResult)
    requires
        decision(votes, seuil, r),
    ensures
        r is NoMatch <==> forall|j: int|
            0 <= j < votes.len() ==> nb_votes(votes, #[trigger] votes[j]) < seuil,
        r matches MatchResult::Matched { vote_count, .. } ==> vote_count >= seuil && forall|j: int|
            0 <= j < votes.len() ==> nb_votes(votes, #[trigger] votes[j]) <= vote_count,
{
    match r {
        MatchResult::Matched { song_id, vote_count } => {
            let i = choose|i: int|
                #![trigger est_gagnant(votes, i)]
                est_gagnant(votes, i) && votes[i].0 == song_id@ && nb_votes(votes, votes[i])
                    == vote_count && vote_count >= seuil;
            assert forall|j: int| 0 <= j < votes.len() implies nb_votes(votes, #[trigger] votes[j])
                <= vote_count by {}
        },
        MatchResult::NoMatch => {},
    }
}

/// Moving every offset by the same amount moves no vote from one candidate
/// to another.
pub proof fn lemme_votes_decales(votes: Seq<(Seq<char>, int)>, c: int, candidat: (Seq<char>, int))
    ensures
        nb_votes(decales(votes, c), (candidat.0, candidat.1 + c)) == nb_votes(votes, candidat),
    decreases votes.len(),
{
    if votes.len() > 0 {
        lemme_votes_decales(votes.drop_last(), c, candidat);
        assert(decales(votes, c).drop_last() == decales(votes.drop_last(), c));
    }
}

/// Moving every offset by the same amount changes no verdict.
pub proof fn lemme_decalage(votes: Seq<(Seq<char>, int)>, c: int, seuil: nat, r: MatchResult)
    requires
        decision(votes, seuil, r),
    ensures
        decision(decales(votes, c), seuil, r),
{
    let d = decales(votes, c);
    assert forall|j: int| 0 <= j < votes.len() implies nb_votes(d, #[trigger] d[j]) == nb_votes(
        votes,
        votes[j],
    ) by {
        lemme_votes_decales(votes, c, votes[j]);
    }
    match r {
        MatchResult::Matched { song_id, vote_count } => {
            let i = choose|i: int|
                #![trigger est_gagnant(votes, i)]
                est_gagnant(votes, i) && votes[i].0 == song_id@ && nb_votes(votes, votes[i])
                    == vote_count && vote_count >= seuil;
            assert forall|j: int| 0 <= j < i implies nb_votes(d, #[trigger] d[j]) < nb_votes(
                d,
                d[i],
            ) by {}
            assert forall|j: int| i <= j < d.len() implies nb_votes(d, #[trigger] d[j]) <= nb_votes(
                d,
                d[i],
            ) by {}
            assert(est_gagnant(d, i));
        },
        MatchResult::NoMatch => {
            assert forall|j: int| 0 <= j < d.len() implies nb_votes(d, #[trigger] d[j]) < seuil by {}
        },
    }
}

/// A query that starts later in the song casts the same votes at offsets
/// that are all smaller by the same amount.
pub proof fn lemme_votes_retardes(
    empreintes: Seq<(usize, usize, usize, usize)>,
    lignes: Seq<Seq<(Seq<char>, i64)>>,
    c: nat,
)
    requires
        forall|i: int| 0 <= i < empreintes.len() ==> (#[trigger] empreintes[i]).3 + c <= usize::MAX,
    ensures
        votes_de(retardees(empreintes, c), lignes) == decales(votes_de(empreintes, lignes), -c),
    decreases empreintes.len(),
{
    if empreintes.len() > 0 && lignes.len() > 0 {
        let r = retardees(empreintes, c);
        lemme_votes_retardes(empreintes.drop_last(), lignes.drop_last(), c);
        assert(r.drop_last() == retardees(empreintes.drop_last(), c));
        let avant = votes_de(empreintes.drop_last(), lignes.drop_last());
        let t = empreintes.last().3 as int;
        assert(decales(avant + decalages(t, lignes.last()), -c) == decales(avant, -c) + decales(
            decalages(t, lignes.last()),
            -c,
        ));
    }
}

/// The verdict does not depend on where the query's clock starts: with
/// every anchor time of the query later by the same number of frames, and
/// the same occurrences found, the winning offset moves and the verdict
/// stays, song and number of votes.
pub proof fn lemme_position_indifferente(
    empreintes: Seq<(usize, usize, usize, usize)>,
    lignes: Seq<Seq<(Seq<char>, i64)>>,
    c: nat,
    seuil: nat,
    r: MatchResult,
)
    requires
        forall|i: int| 0 <= i < empreintes.len() ==> (#[trigger] empreintes[i]).3 + c <= usize::MAX,
        decision(votes_de(empreintes, lignes), seuil, r),
    ensures
        decision(votes_de(retardees(empreintes, c), lignes), seuil, r),
{
    lemme_votes_retardes(empreintes, lignes, c);
    lemme_decalage(votes_de(empreintes, lignes), -c, seuil, r);
}

/// The votes of two runs of votes add up.
pub proof fn lemme_votes_somme(
    a: Seq<(Seq<char>, int)>,
    b: Seq<(Seq<char>, int)>,
    candidat: (Seq<char>, int),
)
    ensures
        nb_votes(a + b, candidat) == nb_votes(a, candidat) + nb_votes(b, candidat),
    decreases b.len(),
{
    if b.len() > 0 {
        lemme_votes_somme(a, b.drop_last(), candidat);
        assert((a + b).drop_last() == a + b.drop_last());
    }
}

/// A candidate that a vote names has a vote.
pub proof fn lemme_votes_present(votes: Seq<(Seq<char>, int)>, k: int)
    requires
        0 <= k < votes.len(),
    ensures
        nb_votes(votes, votes[k]) >= 1,
    decreases votes.len(),
{
    if k < votes.len() - 1 {
        lemme_votes_present(votes.drop_last(), k);
    }
}

/// Whether the occurrences found for one query fingerprint hold one of
/// `chanson` whose anchor time is the query's plus `decalage`.
pub open spec fn trouvee_dans(
    occurrences: Seq<(Seq<char>, i64)>,
    temps_ancre: int,
    chanson: Seq<char>,
    decalage: int,
) -> bool {
    exists|k: int|
        0 <= k < occurrences.len() && (#[trigger] occurrences[k]).0 == chanson && occurrences[k].1
            - temps_ancre == decalage
}

/// Whether the occurrences found for every query fingerprint hold one of
/// `chanson` whose anchor time is the query's plus `decalage`.
pub open spec fn extrait_de(
    empreintes: Seq<(usize, usize, usize, usize)>,
    lignes: Seq<Seq<(Seq<char>, i64)>>,
    chanson: Seq<char>,
    decalage: int,
) -> bool {
    &&& lignes.len() == empreintes.len()
    &&& forall|i: int|
        0 <= i < empreintes.len() ==> #[trigger] trouvee_dans(
            lignes[i],
            empreintes[i].3 as int,
            chanson,
            decalage,
        )
}

/// Every fingerprint of an excerpt casts a vote for the song at the
/// excerpt's offset.
proof fn lemme_votes_extrait(
    empreintes: Seq<(usize, usize, usize, usize)>,
    lignes: Seq<Seq<(Seq<char>, i64)>>,
    chanson: Seq<char>,
    decalage: int,
)
    requires
        extrait_de(empreintes, lignes, chanson, decalage),
    ensures
        nb_votes(votes_de(empreintes, lignes), (chanson, decalage)) >= empreintes.len(),
        empreintes.len() > 0 ==> votes_de(empreintes, lignes).contains((chanson, decalage)),
    decreases empreintes.len(),
{
    if empreintes.len() > 0 {
        let avant_e = empreintes.drop_last();
        let avant_l = lignes.drop_last();
        assert forall|i: int| 0 <= i < avant_e.len() implies #[trigger] trouvee_dans(
            avant_l[i],
            avant_e[i].3 as int,
            chanson,
            decalage,
        ) by {}
        lemme_votes_extrait(avant_e, avant_l, chanson, decalage);
        let dernier = empreintes.len() - 1;
        assert(trouvee_dans(lignes[dernier], empreintes[dernier].3 as int, chanson, decalage));
        let k = choose|k: int|
            0 <= k < lignes[dernier].len() && (#[trigger] lignes[dernier][k]).0 == chanson
                && lignes[dernier][k].1 - empreintes[dernier].3 == decalage;
        let avant = votes_de(avant_e, avant_l);
        let suite = decalages(empreintes.last().3 as int, lignes.last());
        lemme_votes_present(suite, k);
        lemme_votes_somme(avant, suite, (chanson, decalage));
        assert((avant + suite)[avant.len() + k] == (chanson, decalage));
    }
}

/// An excerpt of a stored song is recognised: if every fingerprint of the
/// query is found in one song at one and the same offset, and the query
/// has as many fingerprints as the threshold asks for, then the verdict is a
/// match with at least as many votes as the query has fingerprints.
pub proof fn lemme_extrait_reconnu(
    empreintes: Seq<(usize, usize, usize, usize)>,
    lignes: Seq<Seq<(Seq<char>, i64)>>,
    chanson: Seq<char>,
    decalage: int,
    seuil: nat,
    r: MatchResult,
)
    requires
        extrait_de(empreintes, lignes, chanson, decalage),
        0 < empreintes.len(),
        seuil <= empreintes.len(),
        decision(votes_de(empreintes, lignes), seuil, r),
    ensures
        r matches MatchResult::Matched { vote_count, .. } && vote_count >= empreintes.len(),
{
    let votes = votes_de(empreintes, lignes);
    lemme_votes_extrait(empreintes, lignes, chanson, decalage);
    let j = choose|j: int| 0 <= j < votes.len() && votes[j] == (chanson, decalage);
    lemme_rejet(votes, seuil, r);
}

/// The song is named: if some pair of `chanson` and an offset has as many
/// votes as the threshold asks for, and every pair of another song has
/// fewer votes than that pair, then the verdict is a match that names
/// `chanson`, with at least the votes of that pair.
pub proof fn lemme_chanson_reconnue(
    votes: Seq<(Seq<char>, int)>,
    seuil: nat,
    k: int,
    r: MatchResult,
)
    requires
        decision(votes, seuil, r),
        0 <= k < votes.len(),
        nb_votes(votes, votes[k]) >= seuil,
        forall|j: int|
            0 <= j < votes.len() && (#[trigger] votes[j]).0 != votes[k].0 ==> nb_votes(
                votes,
                votes[j],
            ) < nb_votes(votes, votes[k]),
    ensures
        r matches MatchResult::Matched { song_id, vote_count } && song_id@ == votes[k].0
            && vote_count >= nb_votes(votes, votes[k]),
{
    lemme_rejet(votes, seuil, r);
    match r {
        MatchResult::Matched { song_id, vote_count } => {
            let i = choose|i: int|
                #![trigger est_gagnant(votes, i)]
                est_gagnant(votes, i) && votes[i].0 == song_id@ && nb_votes(votes, votes[i])
                    == vote_count && vote_count >= seuil;
            assert(nb_votes(votes, votes[k]) <= nb_votes(votes, votes[i]));
        },
        MatchResult::NoMatch => {
            assert(nb_votes(votes, votes[k]) < seuil);
        },
    }
}

/// An excerpt of a stored song is recognised as that song: if every
/// fingerprint of the query is found in `chanson` at one and the same
/// offset, the query has as many fingerprints as the threshold asks for,
/// and every pair of another song and an offset has fewer votes than the
/// pair of `chanson` and that offset, then the verdict is a match that
/// names `chanson`, with at least as many votes as the query has
/// fingerprints.
pub proof fn lemme_extrait_nomme(
    empreintes: Seq<(usize, usize, usize, usize)>,
    lignes: Seq<Seq<(Seq<char>, i64)>>,
    chanson: Seq<char>,
    decalage: int,
    seuil: nat,
    r: MatchResult,
)
    requires
        extrait_de(empreintes, lignes, chanson, decalage),
        0 < empreintes.len(),
        seuil <= empreintes.len(),
        decision(votes_de(empreintes, lignes), seuil, r),
        forall|j: int|
            0 <= j < votes_de(empreintes, lignes).len() && (#[trigger] votes_de(
                empreintes,
                lignes,
            )[j]).0 != chanson ==> nb_votes(votes_de(empreintes, lignes), votes_de(empreintes, lignes)[j])
                < nb_votes(votes_de(empreintes, lignes), (chanson, decalage)),
    ensures
        r matches MatchResult::Matched { song_id, vote_count } && song_id@ == chanson && vote_count
            >= empreintes.len(),
{
    let votes = votes_de(empreintes, lignes);
    lemme_votes_extrait(empreintes, lignes, chanson, decalage);
    let k = choose|k: int| 0 <= k < votes.len() && votes[k] == (chanson, decalage);
    lemme_chanson_reconnue(votes, seuil, k, r);
}

/// The winning offset moves with the query and the winner stays: with every
/// offset moved by `c`, the vote that was the winner's first is still the
/// winner's first, for the same song, at an offset moved by `c`.
pub proof fn lemme_gagnant_decale(votes: Seq<(Seq<char>, int)>, c: int, i: int)
    requires
        est_gagnant(votes, i),
    ensures
        est_gagnant(decales(votes, c), i),
        decales(votes, c)[i] == (votes[i].0, votes[i].1 + c),
        nb_votes(decales(votes, c), decales(votes, c)[i]) == nb_votes(votes, votes[i]),
{
    let d = decales(votes, c);
    assert forall|j: int| 0 <= j < votes.len() implies nb_votes(d, #[trigger] d[j]) == nb_votes(
        votes,
        votes[j],
    ) by {
        lemme_votes_decales(votes, c, votes[j]);
    }
    assert forall|j: int| 0 <= j < i implies nb_votes(d, #[trigger] d[j]) < nb_votes(d, d[i]) by {
        assert(nb_votes(votes, votes[j]) < nb_votes(votes, votes[i]));
    }
    assert forall|j: int| i <= j < d.len() implies nb_votes(d, #[trigger] d[j]) <= nb_votes(
        d,
        d[i],
    ) by {
        assert(nb_votes(votes, votes[j]) <= nb_votes(votes, votes[i]));
    }
}

/// The offset moves with the excerpt, the song does not: for a query whose
/// every anchor time is later by `c` frames, with the same occurrences
/// found, the winner is the same song with the same votes, at an offset
/// that is smaller by `c`.
pub proof fn lemme_gagnant_retarde(
    empreintes: Seq<(usize, usize, usize, usize)>,
    lignes: Seq<Seq<(Seq<char>, i64)>>,
    c: nat,
    i: int,
)
    requires
        forall|j: int| 0 <= j < empreintes.len() ==> (#[trigger] empreintes[j]).3 + c <= usize::MAX,
        est_gagnant(votes_de(empreintes, lignes), i),
    ensures
        est_gagnant(votes_de(retardees(empreintes, c), lignes), i),
        votes_de(retardees(empreintes, c), lignes)[i] == (
            votes_de(empreintes, lignes)[i].0,
            votes_de(empreintes, lignes)[i].1 - c,
        ),
        nb_votes(
            votes_de(retardees(empreintes, c), lignes),
            votes_de(retardees(empreintes, c), lignes)[i],
        ) == nb_votes(votes_de(empreintes, lignes), votes_de(empreintes, lignes)[i]),
{
    lemme_votes_retardes(empreintes, lignes, c);
    lemme_gagnant_decale(votes_de(empreintes, lignes), -c, i);
}

/// What the tally knows after the first `i` votes: `premiers` holds, in
/// rising order, the position of the first vote of each candidate seen so
/// far, `comptes` the votes counted for it, and `rang` for each vote the
/// place of its candidate in `premiers`.
spec fn decompte(
    votes: Seq<(Seq<char>, int)>,
    i: int,
    premiers: Seq<usize>,
    comptes: Seq<usize>,
    rang: Seq<int>,
) -> bool {
    &&& 0 <= i <= votes.len()
    &&& premiers.len() == comptes.len()
    &&& rang.len() == i
    &&& forall|k: int|
        0 <= k < premiers.len() ==> (#[trigger] premiers[k]) < i && comptes[k] == nb_votes(
            votes.take(i),
            votes[premiers[k] as int],
        )
    &&& forall|k1: int, k2: int|
        0 <= k1 < k2 < premiers.len() ==> (#[trigger] premiers[k1]) < (#[trigger] premiers[k2])
            && votes[premiers[k1] as int] != votes[premiers[k2] as int]
    &&& forall|j: int|
        0 <= j < i ==> 0 <= (#[trigger] rang[j]) < premiers.len() && premiers[rang[j]] <= j
            && votes[premiers[rang[j]] as int] == votes[j]
}

/// Appends to `votes` the votes that one query fingerprint casts, given the
/// stored occurrences of its key: for each occurrence, its song at the
/// offset `stored anchor time - query anchor time`.
pub fn aligner(temps_ancre: u32, occurrences: &Vec<(String, i64)>, votes: &mut Vec<(String, i128)>)
    ensures
        vue_votes(final(votes)@) == vue_votes(old(votes)@) + decalages(
            temps_ancre as int,
            vue_occurrences(occurrences@),
        ),
{
    let n: usize = occurrences.len();
    let mut i: usize = 0;
    while i < n
        invariant
            i <= n,
            n == occurrences.len(),
            vue_votes(votes@) == vue_votes(old(votes)@) + decalages(
                temps_ancre as int,
                vue_occurrences(occurrences@),
            ).take(i as int),
        decreases n - i,
    {
        let ghost avant = vue_votes(votes@);
        let stocke: i128 = occurrences[i].1 as i128;
        let decalage: i128 = stocke - (temps_ancre as i128);
        votes.push((occurrences[i].0.clone(), decalage));
        proof {
            let cible = decalages(temps_ancre as int, vue_occurrences(occurrences@));
            assert(vue_votes(votes@) == avant.push(cible[i as int]));
        }
        i += 1;
    }
}

/// The candidates filed under an offset, none if nothing is filed there.
spec fn seau_de(index: Map<i128, Vec<usize>>, o: i128) -> Seq<usize> {
    if index.contains_key(o) {
        index[o]@
    } else {
        Seq::empty()
    }
}

/// What the index of the tally holds: every candidate is filed under its
/// offset, and under an offset only candidates of that offset are filed.
spec fn classement(
    votes: Seq<(Seq<char>, int)>,
    premiers: Seq<usize>,
    index: Map<i128, Vec<usize>>,
) -> bool {
    &&& forall|k: int|
        0 <= k < premiers.len() ==> seau_de(
            index,
            votes[(#[trigger] premiers[k]) as int].1 as i128,
        ).contains(k as usize)
    &&& forall|o: i128, m: int|
        0 <= m < seau_de(index, o).len() ==> (#[trigger] seau_de(index, o)[m]) < premiers.len()
            && votes[premiers[seau_de(index, o)[m] as int] as int].1 == o
}

/// Counts the votes candidate by candidate and decides. The answer is the
/// song of the candidate with the most votes, the one seen first among
/// equals, if it has at least `seuil` votes, and no match otherwise.
///
/// The candidates are kept in the order in which they were first seen,
/// which settles ties. A hash map keyed by the offset files them, so a
/// vote is compared only with the candidates of its own offset, one for
/// each song found there. The map is keyed by the offset alone because of
/// a map keyed by a pair that holds a string nothing can be proved.
pub fn elire(votes: &Vec<(String, i128)>, seuil: usize) -> (r: MatchResult)
    ensures
        decision(vue_votes(votes@), seuil as nat, r),
{
    let n: usize = votes.len();
    let ghost h = vue_votes(votes@);
    let ghost mut rang: Seq<int> = Seq::empty();
    let mut premiers: Vec<usize> = Vec::new();
    let mut comptes: Vec<usize> = Vec::new();
    let mut index: HashMap<i128, Vec<usize>> = HashMap::new();
    let mut i: usize = 0;
    while i < n
        invariant
            n == votes.len(),
            h == vue_votes(votes@),
            decompte(h, i as int, premiers@, comptes@, rang),
            classement(h, premiers@, index@),
        decreases n - i,
    {
        let o: i128 = votes[i].1;
        let ghost ancien = index@;
        let mut seau: Vec<usize> = match index.remove(&o) {
            Some(s) => s,
            None => Vec::new(),
        };
        assert(seau@ == seau_de(ancien, o));
        assert(index@ == ancien.remove(o));
        let mut m: usize = 0;
        let mut k: usize = 0;
        let mut trouve: bool = false;
        while m < seau.len() && !trouve
            invariant
                i < n,
                n == votes.len(),
                h == vue_votes(votes@),
                h[i as int].1 == o,
                decompte(h, i as int, premiers@, comptes@, rang),
                m <= seau.len(),
                forall|m2: int|
                    0 <= m2 < seau.len() ==> (#[trigger] seau@[m2]) < premiers.len()
                        && h[premiers[seau@[m2] as int] as int].1 == o,
                forall|m2: int|
                    0 <= m2 < m ==> h[premiers[(#[trigger] seau@[m2]) as int] as int] != h[i as int],
                trouve ==> k < premiers.len() && h[premiers[k as int] as int] == h[i as int],
            decreases seau.len() - m + if trouve { 0int } else { 1int },
        {
            let c: usize = seau[m];
            let p: usize = premiers[c];
            if votes[p].0 == votes[i].0 {
                trouve = true;
                k = c;
            } else {
                m += 1;
            }
        }
        proof {
            if !trouve {
                assert forall|k2: int| 0 <= k2 < premiers.len() implies h[(
                #[trigger] premiers[k2]) as int] != h[i as int] by {
                    if h[premiers[k2] as int] == h[i as int] {
                        assert(seau_de(ancien, o).contains(k2 as usize));
                        let m2 = choose|m2: int| 0 <= m2 < seau@.len() && seau@[m2] == k2 as usize;
                        assert(h[premiers[seau@[m2] as int] as int] != h[i as int]);
                    }
                }
            }
            assert(h.take(i + 1).drop_last() == h.take(i as int));
            assert forall|k2: int| 0 <= k2 < premiers.len() implies nb_votes(
                h.take(i as int),
                h[(#[trigger] premiers[k2]) as int],
            ) <= i by {
                lemme_votes_bornes(h.take(i as int), h[premiers[k2] as int]);
            }
        }
        if trouve {
            let c: usize = comptes[k];
            comptes.set(k, c + 1);
            proof {
                rang = rang.push(k as int);
            }
        } else {
            proof {
                assert forall|j: int| 0 <= j < i implies h.take(i as int)[j] != h[i as int] by {
                    let kj = rang[j];
                    assert(h[premiers[kj] as int] == h[j]);
                }
                lemme_votes_absent(h.take(i as int), h[i as int]);
                rang = rang.push(premiers.len() as int);
            }
            seau.push(premiers.len());
            premiers.push(i);
            comptes.push(1);
        }
        let ghost avant = seau@;
        index.insert(o, seau);
        proof {
            assert forall|o2: i128| o2 != o implies #[trigger] seau_de(index@, o2) == seau_de(
                ancien,
                o2,
            ) by {}
            assert(seau_de(index@, o) == avant);
            assert forall|k2: int| 0 <= k2 < premiers.len() implies seau_de(
                index@,
                h[(#[trigger] premiers[k2]) as int].1 as i128,
            ).contains(k2 as usize) by {
                let o2 = h[premiers[k2] as int].1 as i128;
                if k2 < premiers.len() - 1 || trouve {
                    let vieux = seau_de(ancien, o2);
                    assert(vieux.contains(k2 as usize));
                    let m2 = choose|m2: int| 0 <= m2 < vieux.len() && vieux[m2] == k2 as usize;
                    assert(seau_de(index@, o2)[m2] == k2 as usize);
                } else {
                    assert(avant[avant.len() - 1] == k2 as usize);
                }
            }
        }
        i += 1;
    }
    assert(h.take(n as int) == h);
    if premiers.len() == 0 {
        assert(n == 0) by {
            if n > 0 {
                assert(0 <= rang[0] < premiers.len());
            }
        }
        return MatchResult::NoMatch;
    }
    let mut meilleur: usize = 0;
    let mut k: usize = 1;
    while k < comptes.len()
        invariant
            0 <= meilleur < k <= comptes.len(),
            forall|k2: int| 0 <= k2 < meilleur ==> comptes[k2] < comptes[meilleur as int],
            forall|k2: int| meilleur <= k2 < k ==> comptes[k2] <= comptes[meilleur as int],
        decreases comptes.len() - k,
    {
        if comptes[k] > comptes[meilleur] {
            meilleur = k;
        }
        k += 1;
    }
    let g: usize = premiers[meilleur];
    proof {
        assert forall|j: int| 0 <= j < n implies nb_votes(h, #[trigger] h[j]) == comptes[rang[j]] by {}
        assert forall|j: int| 0 <= j < g implies nb_votes(h, #[trigger] h[j]) < nb_votes(h, h[g as int]) by {
            assert(premiers[rang[j]] <= j);
        }
        assert(est_gagnant(h, g as int));
    }
    if comptes[meilleur] >= seuil {
        MatchResult::Matched { song_id: votes[g].0.clone(), vote_count: comptes[meilleur] }
    } else {
        MatchResult::NoMatch
    }
}

} // verus!
