use vstd::prelude::*;
use crate::erreur::Erreur;

verus! {

/// The sample rate, in hertz, that clips are expected to have.
pub const FREQUENCE_ECHANTILLONNAGE: usize = 44100;

/// The shortest clip that is accepted, in seconds.
pub const DUREE_MINIMALE_SECONDES: usize = 8;

/// One sample out of this many survives the decimation.
pub const FACTEUR_SOUS_ECHANTILLONNAGE: usize = 4;

/// One decoded frame: its channel count and its samples, channels interleaved.
pub struct Trame {
    pub canaux: usize,
    pub donnees: Vec<i16>,
}

/// The number of samples below which a clip is too short.
pub open spec fn echantillons_requis() -> int {
    DUREE_MINIMALE_SECONDES * FREQUENCE_ECHANTILLONNAGE
}

/// The mono samples of one frame, each counted in halves of a sample step,
/// so that the mean of two channels is their plain sum.
pub open spec fn melange(canaux: usize, donnees: Seq<i16>) -> Seq<i32> {
    if canaux == 1 {
        Seq::new(donnees.len(), |i: int| (2 * donnees[i]) as i32)
    } else {
        Seq::new(donnees.len() / 2, |i: int| (donnees[2 * i] + donnees[2 * i + 1]) as i32)
    }
}

/// Whether a frame is mono or stereo.
pub open spec fn canaux_acceptes(canaux: usize) -> bool {
    canaux == 1 || canaux == 2
}

/// Appends the mono samples of one frame to `sortie`, in halves of a sample
/// step. A mono sample counts twice; a stereo pair gives the sum of its two
/// channels, and a last sample without its pair is dropped. A frame with
/// any other channel count is refused and `sortie` stays as it was.
pub fn ajouter_trame(trame: &Trame, sortie: &mut Vec<i32>) -> (r: Result<(), Erreur>)
    ensures
        canaux_acceptes(trame.canaux) ==> r is Ok && final(sortie)@ == old(sortie)@ + melange(
            trame.canaux,
            trame.donnees@,
        ),
        !canaux_acceptes(trame.canaux) ==> r == Err::<(), Erreur>(
            Erreur::UnsupportedChannelLayout { canaux: trame.canaux },
        ) && final(sortie)@ == old(sortie)@,
{
    let taille: usize = trame.donnees.len();
    if trame.canaux == 1 {
        let mut i: usize = 0;
        while i < taille
            invariant
                i <= taille,
                taille == trame.donnees.len(),
                trame.canaux == 1,
                sortie@ == old(sortie)@ + melange(trame.canaux, trame.donnees@).take(i as int),
            decreases taille - i,
        {
            let d: i32 = trame.donnees[i] as i32;
            sortie.push(2 * d);
            i += 1;
        }
        Ok(())
    } else if trame.canaux == 2 {
        let paires: usize = taille / 2;
        let mut k: usize = 0;
        while k < paires
            invariant
                k <= paires,
                paires == trame.donnees.len() / 2,
                trame.canaux == 2,
                sortie@ == old(sortie)@ + melange(trame.canaux, trame.donnees@).take(k as int),
            decreases paires - k,
        {
            let gauche: i32 = trame.donnees[2 * k] as i32;
            let droite: i32 = trame.donnees[2 * k + 1] as i32;
            sortie.push(gauche + droite);
            k += 1;
        }
        Ok(())
    } else {
        Err(Erreur::UnsupportedChannelLayout { canaux: trame.canaux })
    }
}

/// Accepts a clip of `nombre` samples at the expected rate if it lasts the
/// minimum duration, and refuses it as too short otherwise.
pub fn verifier_duree(nombre: usize) -> (r: Result<(), Erreur>)
    ensures
        nombre >= echantillons_requis() ==> r is Ok,
        nombre < echantillons_requis() ==> r == Err::<(), Erreur>(
            Erreur::ClipTooShort { echantillons: nombre },
        ),
{
    if nombre < DUREE_MINIMALE_SECONDES * FREQUENCE_ECHANTILLONNAGE {
        Err(Erreur::ClipTooShort { echantillons: nombre })
    } else {
        Ok(())
    }
}

/// Every fourth sample of `s`, the first one included.
pub open spec fn decimation<T>(s: Seq<T>) -> Seq<T> {
    Seq::new(
        ((s.len() + FACTEUR_SOUS_ECHANTILLONNAGE - 1) / (FACTEUR_SOUS_ECHANTILLONNAGE as int)) as nat,
        |i: int| s[FACTEUR_SOUS_ECHANTILLONNAGE * i],
    )
}

/// Decimates a filtered sample stream: keeps the samples at positions
/// 0, 4, 8, ... and drops the others. The low-pass filter that must run
/// first is the caller's.
pub fn decimer<T: Copy>(echantillons: Vec<T>) -> (r: Vec<T>)
    ensures
        r@ == decimation(echantillons@),
{
    let n: usize = echantillons.len();
    let reste: usize = if n % FACTEUR_SOUS_ECHANTILLONNAGE != 0 { 1 } else { 0 };
    let nombre: usize = n / FACTEUR_SOUS_ECHANTILLONNAGE + reste;
    let mut r: Vec<T> = Vec::new();
    let mut k: usize = 0;
    while k < nombre
        invariant
            k <= nombre,
            n == echantillons.len(),
            nombre == (n + FACTEUR_SOUS_ECHANTILLONNAGE - 1) / (FACTEUR_SOUS_ECHANTILLONNAGE as int),
            r@ == decimation(echantillons@).take(k as int),
        decreases nombre - k,
    {
        r.push(echantillons[FACTEUR_SOUS_ECHANTILLONNAGE * k]);
        k += 1;
    }
    r
}

/// The decoder of the `minimp3` crate, which Verus carries through unread.
#[verifier::external_type_specification]
#[verifier::external_body]
#[verifier::reject_recursive_types(R)]
pub struct ExDecoder<R>(minimp3::Decoder<R>);

/// The frames that a decoder still has to give: what its `next_frame`
/// returns, call after call, until the first call that returns an error.
/// Each frame is its channel count and its interleaved samples. They are
/// finitely many: the decoder reads from a finite run of bytes, and takes
/// the bytes of a frame out of its buffer before it returns the frame.
pub uninterp spec fn a_venir(decodeur: minimp3::Decoder<&[u8]>) -> Seq<(usize, Seq<i16>)>;

/// The shape of a run of frames: for each frame its channel count and the
/// number of its samples.
pub open spec fn formes(trames: Seq<(usize, Seq<i16>)>) -> Seq<(usize, nat)> {
    trames.map_values(|t: (usize, Seq<i16>)| (t.0, t.1.len()))
}

/// The shape of the frames that these bytes decode to. The decoder finds
/// the frames, their channel counts and their sizes by whole-number work on
/// the bytes alone. The values of the samples get no such name: they are
/// computed in floating point, on a path that depends on the processor.
pub uninterp spec fn formes_de(octets: Seq<u8>) -> Seq<(usize, nat)>;

/// `minimp3::Decoder::new` over bytes held in memory. The contract claims
/// that the frames which the new decoder has to give have the shape that
/// the bytes fix: the decoder starts from a zeroed state and reads nothing
/// but these bytes.
#[verifier::external_body]
fn ouvrir_decodeur<'a>(octets: &'a [u8]) -> (decodeur: minimp3::Decoder<&'a [u8]>)
    ensures
        formes(a_venir(decodeur)) == formes_de(octets@),
{
    minimp3::Decoder::new(octets)
}

/// `minimp3::Decoder::next_frame`. The contract claims that a frame that is
/// returned is the first of those still to come and leaves the others to
/// come, and that an error is returned only when none is left. The crate
/// folds skipped and insufficient data into the end of the reader, and a
/// reader over bytes in memory gives no other error.
#[verifier::external_body]
fn trame_suivante(decodeur: &mut minimp3::Decoder<&[u8]>) -> (r: Option<Trame>)
    ensures
        match r {
            Some(trame) => {
                &&& a_venir(*old(decodeur)).len() > 0
                &&& a_venir(*old(decodeur))[0] == (trame.canaux, trame.donnees@)
                &&& a_venir(*final(decodeur)) == a_venir(*old(decodeur)).skip(1)
            },
            None => a_venir(*old(decodeur)).len() == 0,
        },
{
    match decodeur.next_frame() {
        Ok(trame) => Some(Trame { canaux: trame.channels, donnees: trame.data }),
        Err(_) => None,
    }
}

/// Whether every frame of `trames` is mono or stereo.
pub open spec fn toutes_acceptees(trames: Seq<(usize, Seq<i16>)>) -> bool {
    forall|i: int| 0 <= i < trames.len() ==> canaux_acceptes(#[trigger] trames[i].0)
}

/// The mono samples of a run of frames, one frame after the other.
pub open spec fn echantillons_de(trames: Seq<(usize, Seq<i16>)>) -> Seq<i32>
    decreases trames.len(),
{
    if trames.len() == 0 {
        Seq::empty()
    } else {
        echantillons_de(trames.drop_last()) + melange(trames.last().0, trames.last().1)
    }
}

/// What a clip of these frames decodes to: its mono samples, or the reason
/// for which it is refused. The first frame that is neither mono nor stereo
/// refuses the clip; a clip of supported frames is refused when it is too short.
pub open spec fn issue_decodage(trames: Seq<(usize, Seq<i16>)>, r: Result<Vec<i32>, Erreur>) -> bool {
    if !toutes_acceptees(trames) {
        exists|i: int|
            0 <= i < trames.len() && !canaux_acceptes(#[trigger] trames[i].0) && toutes_acceptees(
                trames.take(i),
            ) && r == Err::<Vec<i32>, Erreur>(Erreur::UnsupportedChannelLayout { canaux: trames[i].0 })
    } else if echantillons_de(trames).len() < echantillons_requis() {
        r == Err::<Vec<i32>, Erreur>(
            Erreur::ClipTooShort { echantillons: echantillons_de(trames).len() as usize },
        )
    } else {
        r is Ok && r->Ok_0@ == echantillons_de(trames)
    }
}

/// The number of mono samples that a frame of this shape gives.
pub open spec fn apport(forme: (usize, nat)) -> nat {
    if forme.0 == 1 {
        forme.1
    } else {
        forme.1 / 2
    }
}

/// The number of mono samples that frames of these shapes give together.
pub open spec fn longueur_de(f: Seq<(usize, nat)>) -> nat
    decreases f.len(),
{
    if f.len() == 0 {
        0
    } else {
        longueur_de(f.drop_last()) + apport(f.last())
    }
}

/// Whether every frame of these shapes is mono or stereo.
pub open spec fn formes_acceptees(f: Seq<(usize, nat)>) -> bool {
    forall|i: int| 0 <= i < f.len() ==> canaux_acceptes(#[trigger] f[i].0)
}

/// What the shapes of a clip's frames settle of its decoding: whether it
/// is refused, for which reason and with which count, and how many samples
/// it gives if it is accepted.
pub open spec fn issue_formes(f: Seq<(usize, nat)>, r: Result<Vec<i32>, Erreur>) -> bool {
    if !formes_acceptees(f) {
        exists|i: int|
            0 <= i < f.len() && !canaux_acceptes(#[trigger] f[i].0) && formes_acceptees(f.take(i))
                && r == Err::<Vec<i32>, Erreur>(Erreur::UnsupportedChannelLayout { canaux: f[i].0 })
    } else if longueur_de(f) < echantillons_requis() {
        r == Err::<Vec<i32>, Erreur>(Erreur::ClipTooShort { echantillons: longueur_de(f) as usize })
    } else {
        r is Ok && r->Ok_0@.len() == longueur_de(f)
    }
}

/// The shapes of the frames settle how many samples they give.
pub proof fn lemme_longueur(trames: Seq<(usize, Seq<i16>)>)
    ensures
        echantillons_de(trames).len() == longueur_de(formes(trames)),
    decreases trames.len(),
{
    if trames.len() > 0 {
        lemme_longueur(trames.drop_last());
        assert(formes(trames).drop_last() == formes(trames.drop_last()));
    }
}

/// Whether a clip is accepted, and why not, is settled by the shapes of
/// its frames: the outcome of decoding the frames is one that their shapes
/// allow.
pub proof fn lemme_issue_formes(trames: Seq<(usize, Seq<i16>)>, r: Result<Vec<i32>, Erreur>)
    requires
        issue_decodage(trames, r),
    ensures
        issue_formes(formes(trames), r),
{
    let f = formes(trames);
    lemme_longueur(trames);
    assert(toutes_acceptees(trames) <==> formes_acceptees(f)) by {
        if toutes_acceptees(trames) {
            assert forall|i: int| 0 <= i < f.len() implies canaux_acceptes(#[trigger] f[i].0) by {
                assert(canaux_acceptes(trames[i].0));
            }
        }
        if formes_acceptees(f) {
            assert forall|i: int| 0 <= i < trames.len() implies canaux_acceptes(
                #[trigger] trames[i].0,
            ) by {
                assert(canaux_acceptes(f[i].0));
            }
        }
    }
    if !toutes_acceptees(trames) {
        let i = choose|i: int|
            0 <= i < trames.len() && !canaux_acceptes(#[trigger] trames[i].0) && toutes_acceptees(
                trames.take(i),
            ) && r == Err::<Vec<i32>, Erreur>(Erreur::UnsupportedChannelLayout { canaux: trames[i].0 });
        assert(f.take(i) == formes(trames.take(i)));
        assert forall|j: int| 0 <= j < f.take(i).len() implies canaux_acceptes(
            #[trigger] f.take(i)[j].0,
        ) by {
            assert(canaux_acceptes(trames.take(i)[j].0));
        }
        assert(!canaux_acceptes(f[i].0));
    }
}

/// Drains a decoder: mixes every frame it still gives down to mono and
/// checks the length of the whole.
pub fn lire_echantillons(decodeur: &mut minimp3::Decoder<&[u8]>) -> (r: Result<Vec<i32>, Erreur>)
    ensures
        issue_decodage(a_venir(*old(decodeur)), r),
{
    let ghost toutes = a_venir(*decodeur);
    let ghost mut lues: Seq<(usize, Seq<i16>)> = Seq::empty();
    let mut sortie: Vec<i32> = Vec::new();
    loop
        invariant_except_break
            toutes == lues + a_venir(*decodeur),
        invariant
            toutes_acceptees(lues),
            sortie@ == echantillons_de(lues),
            toutes == a_venir(*old(decodeur)),
        ensures
            toutes == lues,
        decreases a_venir(*decodeur).len(),
    {
        match trame_suivante(decodeur) {
            None => {
                break;
            },
            Some(trame) => {
                proof {
                    let suivantes = lues.push((trame.canaux, trame.donnees@));
                    assert(suivantes.drop_last() == lues);
                }
                match ajouter_trame(&trame, &mut sortie) {
                    Ok(()) => {},
                    Err(e) => {
                        proof {
                            let i = lues.len() as int;
                            assert(!canaux_acceptes(toutes[i].0));
                        }
                        return Err(e);
                    },
                }
                proof {
                    lues = lues.push((trame.canaux, trame.donnees@));
                }
            },
        }
    }
    match verifier_duree(sortie.len()) {
        Ok(()) => Ok(sortie),
        Err(e) => Err(e),
    }
}

/// Decodes an MP3 file held in memory into mono samples, in halves of a
/// sample step, and refuses a clip that is too short. The bytes settle
/// whether the clip is accepted, the reason and the count if it is not, and
/// the number of samples if it is. `Ok` holds the samples of every frame, in
/// order, for frames of the shape that the bytes fix.
pub fn obtenir_metadonnees(octets: &[u8]) -> (r: Result<Vec<i32>, Erreur>)
    ensures
        issue_formes(formes_de(octets@), r),
        exists|trames: Seq<(usize, Seq<i16>)>|
            #[trigger] formes(trames) == formes_de(octets@) && issue_decodage(trames, r),
{
    let mut decodeur = ouvrir_decodeur(octets);
    let ghost trames = a_venir(decodeur);
    let r = lire_echantillons(&mut decodeur);
    proof {
        lemme_issue_formes(trames, r);
        assert(formes(trames) == formes_de(octets@) && issue_decodage(trames, r));
    }
    r
}

} // verus!
