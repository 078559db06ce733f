use vstd::prelude::*;
use crate::erreur::Erreur;

verus! {

/// The length of an analysis window, in samples.
pub const TAILLE_FENETRE: usize = 1024;

/// The number of samples by which one window starts after the one before.
pub const TAILLE_SAUT: usize = 512;

/// The number of bins of a spectrum: the first half of a transformed
/// window, the second half being its mirror image.
pub const DEMI_FENETRE: usize = 512;

/// The number of windows cut out of `n` samples: none out of none, and
/// otherwise one at every hop over the stream padded to whole windows.
pub open spec fn nombre_fenetres(n: nat) -> nat {
    if n == 0 {
        0
    } else {
        (2 * ((n + TAILLE_FENETRE - 1) / (TAILLE_FENETRE as int)) - 1) as nat
    }
}

/// The window of rank `i`: the samples from position `i * TAILLE_SAUT` on,
/// with `zero` where the stream has ended.
pub open spec fn fenetre<T>(s: Seq<T>, zero: T, i: int) -> Seq<T> {
    Seq::new(
        TAILLE_FENETRE as nat,
        |j: int|
            if i * TAILLE_SAUT + j < s.len() {
                s[i * TAILLE_SAUT + j]
            } else {
                zero
            },
    )
}

/// Cuts a sample stream into overlapping windows of `TAILLE_FENETRE`
/// samples, each starting `TAILLE_SAUT` samples after the one before. The
/// stream is padded with `zero` to a whole number of windows, so the last
/// window ends where the padded stream ends and none lies wholly in the
/// padding.
pub fn decouper_fenetres<T: Copy>(metadonnees: &Vec<T>, zero: T) -> (fenetres: Vec<Vec<T>>)
    ensures
        fenetres.len() == nombre_fenetres(metadonnees@.len()),
        forall|i: int|
            0 <= i < fenetres.len() ==> (#[trigger] fenetres[i])@ == fenetre(metadonnees@, zero, i),
{
    let n: usize = metadonnees.len();
    let mut fenetres: Vec<Vec<T>> = Vec::new();
    if n == 0 {
        return fenetres;
    }
    let reste: usize = if n % TAILLE_FENETRE != 0 { 1 } else { 0 };
    let blocs: usize = n / TAILLE_FENETRE + reste;
    let nombre: usize = 2 * blocs - 1;
    let mut i: usize = 0;
    while i < nombre
        invariant
            i <= nombre,
            n == metadonnees.len(),
            n > 0,
            blocs == (n + TAILLE_FENETRE - 1) / (TAILLE_FENETRE as int),
            nombre == 2 * blocs - 1,
            fenetres.len() == i,
            forall|a: int|
                0 <= a < i ==> (#[trigger] fenetres[a])@ == fenetre(metadonnees@, zero, a),
        decreases nombre - i,
    {
        let position: usize = i * TAILLE_SAUT;
        let disponibles: usize = n - position;
        let mut courante: Vec<T> = Vec::new();
        let mut j: usize = 0;
        while j < TAILLE_FENETRE
            invariant
                j <= TAILLE_FENETRE,
                n == metadonnees.len(),
                position == i * TAILLE_SAUT,
                position < n,
                disponibles == n - position,
                courante@ == fenetre(metadonnees@, zero, i as int).take(j as int),
            decreases TAILLE_FENETRE - j,
        {
            if j < disponibles {
                courante.push(metadonnees[position + j]);
            } else {
                courante.push(zero);
            }
            j += 1;
        }
        fenetres.push(courante);
        i += 1;
    }
    fenetres
}

/// Consecutive windows overlap by half: the second half of one window is the
/// first half of the next.
pub proof fn lemme_recouvrement<T>(s: Seq<T>, zero: T, i: int, j: int)
    requires
        0 <= i,
        0 <= j < TAILLE_SAUT,
    ensures
        fenetre(s, zero, i)[j + TAILLE_SAUT] == fenetre(s, zero, i + 1)[j],
{
}

/// Every sample lies in a window, and the last window starts inside the
/// stream: no window holds padding only.
pub proof fn lemme_couverture<T>(s: Seq<T>, zero: T, p: int)
    requires
        0 <= p < s.len(),
    ensures
        exists|i: int, j: int|
            0 <= i < nombre_fenetres(s.len()) && 0 <= j < TAILLE_FENETRE && i * TAILLE_SAUT + j == p
                && #[trigger] fenetre(s, zero, i)[j] == s[p],
        (nombre_fenetres(s.len()) - 1) * TAILLE_SAUT < s.len(),
{
    let nombre = nombre_fenetres(s.len()) as int;
    let i = if p / (TAILLE_SAUT as int) < nombre {
        p / (TAILLE_SAUT as int)
    } else {
        nombre - 1
    };
    let j = p - i * TAILLE_SAUT;
    assert(fenetre(s, zero, i)[j] == s[p]);
}

/// Accepts a buffer as a window if it holds `TAILLE_FENETRE` samples, and
/// refuses any other: a transform of another size gives bins that stand
/// for other frequencies.
pub fn verifier_fenetre<T>(fenetre: &[T]) -> (r: Result<(), Erreur>)
    ensures
        fenetre@.len() == TAILLE_FENETRE ==> r is Ok,
        fenetre@.len() != TAILLE_FENETRE ==> r matches Err(Erreur::InvalidInput),
{
    if fenetre.len() == TAILLE_FENETRE {
        Ok(())
    } else {
        Err(Erreur::InvalidInput)
    }
}

/// Keeps the first half of a transformed window and drops the second,
/// which for a real signal mirrors the first and holds no frequency of its own.
pub fn demi_spectre<T: Copy>(spectre: &Vec<T>) -> (moitie: Vec<T>)
    ensures
        moitie@ == spectre@.take(spectre@.len() as int / 2),
{
    let n: usize = spectre.len() / 2;
    let mut moitie: Vec<T> = Vec::new();
    let mut i: usize = 0;
    while i < n
        invariant
            i <= n,
            n == spectre.len() / 2,
            moitie@ == spectre@.take(i as int),
        decreases n - i,
    {
        moitie.push(spectre[i]);
        i += 1;
    }
    moitie
}

/// The largest magnitude that a spectrum may hold. A magnitude stands here
/// as the bit pattern of a single-precision number that is not negative:
/// such patterns rise with the numbers they stand for, up to this one,
/// which stands for infinity. The patterns above it stand for no number.
pub const AMPLITUDE_MAX: u32 = 0x7F80_0000;

/// A spectrogram as the contracts speak of it: one sequence of magnitudes
/// for each frame.
pub open spec fn vue_spectrogramme(spectrogramme: Seq<Vec<u32>>) -> Seq<Seq<u32>> {
    spectrogramme.map_values(|f: Vec<u32>| f@)
}

/// Whether a spectrum has no more bins than half a window and holds
/// magnitudes only.
pub open spec fn spectre_valide(f: Seq<u32>) -> bool {
    f.len() <= DEMI_FENETRE && forall|b: int| 0 <= b < f.len() ==> (#[trigger] f[b]) <= AMPLITUDE_MAX
}

/// Whether every frame of a spectrogram is a valid spectrum.
pub open spec fn spectrogramme_valide(s: Seq<Seq<u32>>) -> bool {
    forall|t: int| 0 <= t < s.len() ==> spectre_valide(#[trigger] s[t])
}

/// Whether bin `a` is picked before bin `b`: it is stronger, or as strong
/// and lower in frequency.
pub open spec fn devance(f: Seq<u32>, a: int, b: int) -> bool {
    f[a] > f[b] || (f[a] == f[b] && a < b)
}

/// The number of bins below `n` that are picked before bin `b`.
pub open spec fn nb_devant(f: Seq<u32>, b: int, n: int) -> nat
    decreases n,
{
    if n <= 0 {
        0
    } else {
        nb_devant(f, b, n - 1) + if devance(f, n - 1, b) {
            1nat
        } else {
            0nat
        }
    }
}

/// The rank of bin `b` in its spectrum: the number of bins picked before it.
pub open spec fn rang(f: Seq<u32>, b: int) -> nat {
    nb_devant(f, b, f.len() as int)
}

/// The bin of rank `j`.
pub open spec fn bin_de_rang(f: Seq<u32>, j: int) -> int {
    choose|b: int| 0 <= b < f.len() && rang(f, b) == j
}

/// The peaks of frame `t`: its `k` strongest bins, or all of them if it has
/// fewer, from the strongest down; of two bins of one strength the lower
/// comes first. Each peak is the frame, the bin and the bin's magnitude.
pub open spec fn pics_fenetre(f: Seq<u32>, t: int, k: nat) -> Seq<(usize, usize, u32)> {
    Seq::new(
        if k <= f.len() {
            k
        } else {
            f.len()
        },
        |j: int| (t as usize, bin_de_rang(f, j) as usize, f[bin_de_rang(f, j)]),
    )
}

/// The peaks of a spectrogram: those of each frame, frame after frame.
pub open spec fn pics_de(s: Seq<Seq<u32>>, k: nat) -> Seq<(usize, usize, u32)>
    decreases s.len(),
{
    if s.len() == 0 {
        Seq::empty()
    } else {
        pics_de(s.drop_last(), k) + pics_fenetre(s.last(), s.len() - 1, k)
    }
}

/// A bin picked before another has a lower rank: whatever is picked before
/// the first is picked before the second, and so is the first itself.
pub proof fn lemme_rang_croissant(f: Seq<u32>, a: int, b: int, n: int)
    requires
        0 <= a < f.len(),
        0 <= b < f.len(),
        devance(f, a, b),
        0 <= n <= f.len(),
    ensures
        nb_devant(f, a, n) + (if a < n { 1int } else { 0int }) <= nb_devant(f, b, n),
    decreases n,
{
    if n > 0 {
        lemme_rang_croissant(f, a, b, n - 1);
    }
}

/// No two bins of a spectrum have the same rank.
pub proof fn lemme_rang_unique(f: Seq<u32>, a: int, b: int)
    requires
        0 <= a < f.len(),
        0 <= b < f.len(),
        rang(f, a) == rang(f, b),
    ensures
        a == b,
{
    if a != b {
        if devance(f, a, b) {
            lemme_rang_croissant(f, a, b, f.len() as int);
        } else {
            lemme_rang_croissant(f, b, a, f.len() as int);
        }
    }
}

/// A bin that no bin below `n` is picked before has none of them before it.
proof fn lemme_rang_premier(f: Seq<u32>, b: int, n: int)
    requires
        forall|i: int| 0 <= i < n ==> !devance(f, i, b),
    ensures
        nb_devant(f, b, n) == 0,
    decreases n,
{
    if n > 0 {
        lemme_rang_premier(f, b, n - 1);
    }
}

/// If the bins picked before `b` are those picked before `d`, and `d`, then
/// `b` has one more bin before it than `d` has.
proof fn lemme_rang_suivant(f: Seq<u32>, d: int, b: int, n: int)
    requires
        0 <= d,
        forall|i: int| 0 <= i < n ==> (devance(f, i, b) <==> (devance(f, i, d) || i == d)),
    ensures
        nb_devant(f, b, n) == nb_devant(f, d, n) + if d < n { 1int } else { 0int },
    decreases n,
{
    if n > 0 {
        lemme_rang_suivant(f, d, b, n - 1);
    }
}

/// A bin that every other bin below `n` is picked before has them all
/// before it.
proof fn lemme_rang_dernier(f: Seq<u32>, d: int, n: int)
    requires
        0 <= d,
        0 <= n,
        forall|i: int| 0 <= i < n && i != d ==> devance(f, i, d),
    ensures
        nb_devant(f, d, n) == n - if d < n { 1int } else { 0int },
    decreases n,
{
    if n > 0 {
        lemme_rang_dernier(f, d, n - 1);
    }
}

/// Whether bin `i` may still be picked as the peak of rank `j`, `d` being
/// the peak picked just before.
spec fn admis(f: Seq<u32>, j: int, d: int, i: int) -> bool {
    j == 0 || devance(f, d, i)
}

/// Appends the peaks of frame `t` to `sortie`.
fn ajouter_pics(f: &Vec<u32>, t: usize, nombre_pics: usize, sortie: &mut Vec<(usize, usize, u32)>)
    ensures
        final(sortie)@ == old(sortie)@ + pics_fenetre(f@, t as int, nombre_pics as nat),
{
    let n: usize = f.len();
    let m: usize = if nombre_pics <= n { nombre_pics } else { n };
    let ghost cible = pics_fenetre(f@, t as int, nombre_pics as nat);
    let mut dernier: usize = 0;
    let mut j: usize = 0;
    while j < m
        invariant
            j <= m,
            m <= n,
            n == f.len(),
            m == cible.len(),
            cible == pics_fenetre(f@, t as int, nombre_pics as nat),
            j > 0 ==> dernier < n && rang(f@, dernier as int) == j - 1,
            sortie@ == old(sortie)@ + cible.take(j as int),
        decreases m - j,
    {
        let mut meilleur: usize = 0;
        let mut trouve: bool = false;
        let mut b: usize = 0;
        while b < n
            invariant
                b <= n,
                n == f.len(),
                j > 0 ==> dernier < n,
                trouve ==> meilleur < b && admis(f@, j as int, dernier as int, meilleur as int),
                trouve ==> forall|i: int|
                    0 <= i < b && #[trigger] admis(f@, j as int, dernier as int, i) ==> i
                        == meilleur || devance(f@, meilleur as int, i),
                !trouve ==> forall|i: int|
                    0 <= i < b ==> !#[trigger] admis(f@, j as int, dernier as int, i),
            decreases n - b,
        {
            let permis: bool = j == 0 || f[dernier] > f[b] || (f[dernier] == f[b] && dernier < b);
            if permis && (!trouve || f[b] > f[meilleur]) {
                meilleur = b;
                trouve = true;
            }
            b += 1;
        }
        proof {
            let d = dernier as int;
            let g = meilleur as int;
            if !trouve {
                if j == 0 {
                    assert(admis(f@, j as int, d, 0));
                } else {
                    assert forall|i: int| 0 <= i < n && i != d implies devance(f@, i, d) by {
                        assert(!admis(f@, j as int, d, i));
                    }
                    lemme_rang_dernier(f@, d, n as int);
                }
                assert(false);
            }
            if j == 0 {
                assert forall|i: int| 0 <= i < n implies !devance(f@, i, g) by {
                    assert(admis(f@, j as int, d, i));
                }
                lemme_rang_premier(f@, g, n as int);
            } else {
                assert forall|i: int| 0 <= i < n implies (devance(f@, i, g) <==> (devance(f@, i, d)
                    || i == d)) by {
                    if i != d && !devance(f@, i, d) {
                        assert(admis(f@, j as int, d, i));
                    }
                }
                lemme_rang_suivant(f@, d, g, n as int);
            }
            assert(rang(f@, g) == j);
            lemme_rang_unique(f@, g, bin_de_rang(f@, j as int));
        }
        sortie.push((t, meilleur, f[meilleur]));
        dernier = meilleur;
        j += 1;
    }
}

/// Tells whether a spectrum has no more bins than half a window and holds
/// magnitudes only.
fn verifier_spectre(f: &Vec<u32>) -> (b: bool)
    ensures
        b == spectre_valide(f@),
{
    let n: usize = f.len();
    if n > DEMI_FENETRE {
        return false;
    }
    let mut i: usize = 0;
    while i < n
        invariant
            i <= n,
            n == f.len(),
            n <= DEMI_FENETRE,
            forall|a: int| 0 <= a < i ==> (#[trigger] f@[a]) <= AMPLITUDE_MAX,
        decreases n - i,
    {
        if f[i] > AMPLITUDE_MAX {
            return false;
        }
        i += 1;
    }
    true
}

/// Picks the peaks of a spectrogram: in each frame the `nombre_pics`
/// strongest bins (all of them if the frame has fewer; none in an empty
/// frame), from the strongest down, the lower bin first among equals, and
/// the frames in order. A spectrogram with a frame longer than half a
/// window, or with a value that is no magnitude, is refused as a whole.
pub fn trouver_pics(spectrogramme: &Vec<Vec<u32>>, nombre_pics: usize) -> (r: Result<
    Vec<(usize, usize, u32)>,
    Erreur,
>)
    ensures
        spectrogramme_valide(vue_spectrogramme(spectrogramme@)) ==> r is Ok && r->Ok_0@ == pics_de(
            vue_spectrogramme(spectrogramme@),
            nombre_pics as nat,
        ),
        !spectrogramme_valide(vue_spectrogramme(spectrogramme@)) ==> r matches Err(
            Erreur::InvalidInput,
        ),
{
    let n: usize = spectrogramme.len();
    let ghost s = vue_spectrogramme(spectrogramme@);
    let mut t: usize = 0;
    while t < n
        invariant
            t <= n,
            n == spectrogramme.len(),
            s == vue_spectrogramme(spectrogramme@),
            forall|a: int| 0 <= a < t ==> spectre_valide(#[trigger] s[a]),
        decreases n - t,
    {
        if !verifier_spectre(&spectrogramme[t]) {
            assert(!spectre_valide(s[t as int]));
            return Err(Erreur::InvalidInput);
        }
        t += 1;
    }
    let mut pics: Vec<(usize, usize, u32)> = Vec::new();
    let mut t: usize = 0;
    while t < n
        invariant
            t <= n,
            n == spectrogramme.len(),
            s == vue_spectrogramme(spectrogramme@),
            pics@ == pics_de(s.take(t as int), nombre_pics as nat),
        decreases n - t,
    {
        ajouter_pics(&spectrogramme[t], t, nombre_pics, &mut pics);
        proof {
            assert(s.take(t + 1).drop_last() == s.take(t as int));
        }
        t += 1;
    }
    assert(s.take(n as int) == s);
    Ok(pics)
}

/// Whether `cible` may be paired with `ancre`: it lies in a later frame, at
/// most `delta_max` frames later.
pub open spec fn paire_valide(
    ancre: (usize, usize, u32),
    cible: (usize, usize, u32),
    delta_max: usize,
) -> bool {
    0 < cible.0 - ancre.0 <= delta_max
}

/// The fingerprint of a pair of peaks: the anchor's bin, the target's bin,
/// the number of frames from the anchor to the target, the anchor's frame.
pub open spec fn empreinte(ancre: (usize, usize, u32), cible: (usize, usize, u32)) -> (
    usize,
    usize,
    usize,
    usize,
) {
    (ancre.1, cible.1, (cible.0 - ancre.0) as usize, ancre.0)
}

/// The fingerprints of the anchor at position `i` with the `portee` peaks
/// that follow it in the list, nearest first, as far as the list goes.
pub open spec fn empreintes_ancre(
    pics: Seq<(usize, usize, u32)>,
    i: int,
    portee: nat,
    delta_max: usize,
) -> Seq<(usize, usize, usize, usize)>
    decreases portee,
{
    if portee == 0 {
        Seq::empty()
    } else {
        empreintes_ancre(pics, i, (portee - 1) as nat, delta_max) + if i + portee < pics.len()
            && paire_valide(pics[i], pics[i + portee], delta_max) {
            seq![empreinte(pics[i], pics[i + portee])]
        } else {
            Seq::empty()
        }
    }
}

/// The fingerprints of the first `n` peaks taken as anchors, anchor after
/// anchor, each paired with the `fan_out` peaks that follow it.
pub open spec fn empreintes_de(
    pics: Seq<(usize, usize, u32)>,
    n: nat,
    fan_out: nat,
    delta_max: usize,
) -> Seq<(usize, usize, usize, usize)>
    decreases n,
{
    if n == 0 {
        Seq::empty()
    } else {
        empreintes_de(pics, (n - 1) as nat, fan_out, delta_max) + empreintes_ancre(
            pics,
            n - 1,
            fan_out,
            delta_max,
        )
    }
}

/// Past the end of the list there is nothing to pair an anchor with.
proof fn lemme_hors_portee(
    pics: Seq<(usize, usize, u32)>,
    i: int,
    proche: nat,
    loin: nat,
    delta_max: usize,
)
    requires
        proche <= loin,
        i + proche + 1 >= pics.len(),
    ensures
        empreintes_ancre(pics, i, loin, delta_max) == empreintes_ancre(pics, i, proche, delta_max),
    decreases loin,
{
    if proche < loin {
        lemme_hors_portee(pics, i, proche, (loin - 1) as nat, delta_max);
    }
}

/// Pairs each peak, as an anchor, with the `fan_out` peaks that follow it in
/// the list, and keeps the pairs whose target lies in a later frame, at
/// most `delta_max` frames after the anchor's. The fingerprints come out
/// anchor after anchor, and for one anchor nearest target first.
pub fn generer_empreintes(pics: &Vec<(usize, usize, u32)>, fan_out: usize, delta_max: usize) -> (r:
    Vec<(usize, usize, usize, usize)>)
    ensures
        r@ == empreintes_de(pics@, pics@.len(), fan_out as nat, delta_max),
{
    let n: usize = pics.len();
    let mut empreintes: Vec<(usize, usize, usize, usize)> = Vec::new();
    let mut i: usize = 0;
    while i < n
        invariant
            i <= n,
            n == pics.len(),
            empreintes@ == empreintes_de(pics@, i as nat, fan_out as nat, delta_max),
        decreases n - i,
    {
        let ancre: (usize, usize, u32) = pics[i];
        let ghost avant = empreintes@;
        let mut j: usize = 0;
        while j < fan_out && j + 1 < n - i
            invariant
                i < n,
                n == pics.len(),
                j <= fan_out,
                ancre == pics@[i as int],
                empreintes@ == avant + empreintes_ancre(pics@, i as int, j as nat, delta_max),
            decreases fan_out - j,
        {
            j += 1;
            let cible: (usize, usize, u32) = pics[i + j];
            if cible.0 > ancre.0 && cible.0 - ancre.0 <= delta_max {
                empreintes.push((ancre.1, cible.1, cible.0 - ancre.0, ancre.0));
            }
        }
        proof {
            if j < fan_out {
                lemme_hors_portee(pics@, i as int, j as nat, fan_out as nat, delta_max);
            }
        }
        i += 1;
    }
    empreintes
}

/// What holds of every peak of a spectrogram: its frame is one of the
/// spectrogram's, its bin one of that frame's, and its magnitude the one
/// found there.
pub open spec fn pic_du_spectrogramme(s: Seq<Seq<u32>>, pic: (usize, usize, u32)) -> bool {
    pic.0 < s.len() && pic.1 < s[pic.0 as int].len() && pic.2 == s[pic.0 as int][pic.1 as int]
}

/// The bin below `n` that no bin below `n` is picked before.
spec fn bin_du_sommet(f: Seq<u32>, n: int) -> int
    decreases n,
{
    if n <= 1 {
        0
    } else if devance(f, n - 1, bin_du_sommet(f, n - 1)) {
        n - 1
    } else {
        bin_du_sommet(f, n - 1)
    }
}

/// Among the bins below `n` that are picked after bin `d`, the one picked
/// first; `d` itself if there is none.
spec fn bin_suivant(f: Seq<u32>, d: int, n: int) -> int
    decreases n,
{
    if n <= 0 {
        d
    } else {
        let b = bin_suivant(f, d, n - 1);
        if devance(f, d, n - 1) && (b == d || devance(f, n - 1, b)) {
            n - 1
        } else {
            b
        }
    }
}

/// The bin found by `bin_du_sommet` is picked first among the bins below `n`.
proof fn lemme_sommet(f: Seq<u32>, n: int)
    requires
        1 <= n <= f.len(),
    ensures
        0 <= bin_du_sommet(f, n) < n,
        forall|i: int| 0 <= i < n ==> !#[trigger] devance(f, i, bin_du_sommet(f, n)),
    decreases n,
{
    if n > 1 {
        lemme_sommet(f, n - 1);
        let avant = bin_du_sommet(f, n - 1);
        assert forall|i: int| 0 <= i < n implies !#[trigger] devance(f, i, bin_du_sommet(f, n)) by {
            if i < n - 1 {
                assert(!devance(f, i, avant));
            }
        }
    }
}

/// The bin found by `bin_suivant` is picked right after `d` among the bins
/// below `n`, if any is picked after `d`.
proof fn lemme_suivant(f: Seq<u32>, d: int, n: int)
    requires
        0 <= d < f.len(),
        0 <= n <= f.len(),
    ensures
        ({
            let b = bin_suivant(f, d, n);
            if b == d {
                forall|i: int| 0 <= i < n ==> !#[trigger] devance(f, d, i)
            } else {
                0 <= b < n && devance(f, d, b) && forall|i: int|
                    0 <= i < n && #[trigger] devance(f, d, i) ==> i == b || devance(f, b, i)
            }
        }),
    decreases n,
{
    if n > 0 {
        lemme_suivant(f, d, n - 1);
        let avant = bin_suivant(f, d, n - 1);
        let b = bin_suivant(f, d, n);
        if b == d {
            assert forall|i: int| 0 <= i < n implies !#[trigger] devance(f, d, i) by {}
        } else {
            assert forall|i: int| 0 <= i < n && #[trigger] devance(f, d, i) implies i == b
                || devance(f, b, i) by {}
        }
    }
}

/// A frame with more than `j` bins has a bin of rank `j`.
pub proof fn lemme_rang_atteint(f: Seq<u32>, j: int)
    requires
        0 <= j < f.len(),
    ensures
        0 <= bin_de_rang(f, j) < f.len(),
        rang(f, bin_de_rang(f, j)) == j,
    decreases j,
{
    let n = f.len() as int;
    if j == 0 {
        let b = bin_du_sommet(f, n);
        lemme_sommet(f, n);
        lemme_rang_premier(f, b, n);
        assert(0 <= b < f.len() && rang(f, b) == j);
    } else {
        lemme_rang_atteint(f, j - 1);
        let d = bin_de_rang(f, j - 1);
        let b = bin_suivant(f, d, n);
        lemme_suivant(f, d, n);
        if b == d {
            assert forall|i: int| 0 <= i < n && i != d implies devance(f, i, d) by {
                assert(!devance(f, d, i));
            }
            lemme_rang_dernier(f, d, n);
            assert(false);
        }
        assert forall|i: int| 0 <= i < n implies (devance(f, i, b) <==> (devance(f, i, d) || i
            == d)) by {
            if i != d && !devance(f, i, d) {
                assert(devance(f, d, i));
            }
        }
        lemme_rang_suivant(f, d, b, n);
        assert(0 <= b < f.len() && rang(f, b) == j);
    }
}

/// The peaks of a frame come strongest first, and of two peaks of one
/// strength the one of the lower bin comes first.
pub proof fn lemme_pics_decroissants(f: Seq<u32>, j1: int, j2: int)
    requires
        0 <= j1 < j2 < f.len(),
    ensures
        devance(f, bin_de_rang(f, j1), bin_de_rang(f, j2)),
        f[bin_de_rang(f, j1)] >= f[bin_de_rang(f, j2)],
{
    let a = bin_de_rang(f, j1);
    let b = bin_de_rang(f, j2);
    lemme_rang_atteint(f, j1);
    lemme_rang_atteint(f, j2);
    if devance(f, b, a) {
        lemme_rang_croissant(f, b, a, f.len() as int);
    }
}

/// Every peak of a spectrogram is one of its bins, and no frame gives more
/// than `k` peaks.
pub proof fn lemme_pics_du_spectrogramme(s: Seq<Seq<u32>>, k: nat)
    requires
        spectrogramme_valide(s),
        s.len() <= usize::MAX,
    ensures
        forall|i: int|
            0 <= i < pics_de(s, k).len() ==> pic_du_spectrogramme(s, #[trigger] pics_de(s, k)[i]),
        pics_de(s, k).len() <= s.len() * k,
    decreases s.len(),
{
    if s.len() > 0 {
        let avant = s.drop_last();
        assert forall|t: int| 0 <= t < avant.len() implies spectre_valide(#[trigger] avant[t]) by {
            assert(avant[t] == s[t]);
        }
        lemme_pics_du_spectrogramme(avant, k);
        let f = s.last();
        assert forall|i: int| 0 <= i < pics_de(s, k).len() implies pic_du_spectrogramme(
            s,
            #[trigger] pics_de(s, k)[i],
        ) by {
            if i < pics_de(avant, k).len() {
                assert(pic_du_spectrogramme(avant, pics_de(avant, k)[i]));
            } else {
                lemme_rang_atteint(f, i - pics_de(avant, k).len());
            }
        }
        assert(s.len() * k == avant.len() * k + k) by (nonlinear_arith)
            requires
                s.len() == avant.len() + 1,
        ;
    }
}

/// Whether `e` is the fingerprint of an anchor and one of the `fan_out`
/// peaks that follow it, the two no more than `delta_max` frames apart.
pub open spec fn issue_d_une_paire(
    pics: Seq<(usize, usize, u32)>,
    fan_out: nat,
    delta_max: usize,
    e: (usize, usize, usize, usize),
) -> bool {
    exists|a: int, c: int|
        0 <= a < c < pics.len() && c - a <= fan_out && paire_valide(pics[a], pics[c], delta_max)
            && e == #[trigger] empreinte(pics[a], pics[c])
}

/// The fingerprints of one anchor come from pairs within its reach, one at
/// most for each peak in reach.
proof fn lemme_ancre_paires(
    pics: Seq<(usize, usize, u32)>,
    i: int,
    portee: nat,
    fan_out: nat,
    delta_max: usize,
)
    requires
        0 <= i < pics.len(),
        portee <= fan_out,
    ensures
        empreintes_ancre(pics, i, portee, delta_max).len() <= portee,
        forall|k: int|
            0 <= k < empreintes_ancre(pics, i, portee, delta_max).len() ==> issue_d_une_paire(
                pics,
                fan_out,
                delta_max,
                #[trigger] empreintes_ancre(pics, i, portee, delta_max)[k],
            ),
    decreases portee,
{
    if portee > 0 {
        lemme_ancre_paires(pics, i, (portee - 1) as nat, fan_out, delta_max);
        let avant = empreintes_ancre(pics, i, (portee - 1) as nat, delta_max);
        assert forall|k: int|
            0 <= k < empreintes_ancre(pics, i, portee, delta_max).len() implies issue_d_une_paire(
            pics,
            fan_out,
            delta_max,
            #[trigger] empreintes_ancre(pics, i, portee, delta_max)[k],
        ) by {
            if k < avant.len() {
                assert(issue_d_une_paire(pics, fan_out, delta_max, avant[k]));
            } else {
                assert(empreintes_ancre(pics, i, portee, delta_max)[k] == empreinte(
                    pics[i],
                    pics[i + portee],
                ));
            }
        }
    }
}

/// Every fingerprint comes from an anchor and one of the `fan_out` peaks
/// after it, so the time between its two peaks is more than none and no
/// more than `delta_max`; and there are no more than `fan_out` for each peak.
pub proof fn lemme_empreintes_paires(
    pics: Seq<(usize, usize, u32)>,
    n: nat,
    fan_out: nat,
    delta_max: usize,
)
    requires
        n <= pics.len(),
    ensures
        empreintes_de(pics, n, fan_out, delta_max).len() <= n * fan_out,
        forall|k: int|
            0 <= k < empreintes_de(pics, n, fan_out, delta_max).len() ==> {
                let e = #[trigger] empreintes_de(pics, n, fan_out, delta_max)[k];
                issue_d_une_paire(pics, fan_out, delta_max, e) && 0 < e.2 <= delta_max
            },
    decreases n,
{
    if n > 0 {
        lemme_empreintes_paires(pics, (n - 1) as nat, fan_out, delta_max);
        lemme_ancre_paires(pics, n - 1, fan_out, fan_out, delta_max);
        let avant = empreintes_de(pics, (n - 1) as nat, fan_out, delta_max);
        let suite = empreintes_ancre(pics, n - 1, fan_out, delta_max);
        assert forall|k: int| 0 <= k < empreintes_de(pics, n, fan_out, delta_max).len() implies {
            let e = #[trigger] empreintes_de(pics, n, fan_out, delta_max)[k];
            issue_d_une_paire(pics, fan_out, delta_max, e) && 0 < e.2 <= delta_max
        } by {
            let e = empreintes_de(pics, n, fan_out, delta_max)[k];
            if k < avant.len() {
                assert(e == avant[k]);
            } else {
                assert(e == suite[k - avant.len()]);
            }
        }
        assert(n * fan_out == (n - 1) * fan_out + fan_out) by (nonlinear_arith);
    }
}

/// Every valid pair of an anchor with a peak in its reach is among the
/// anchor's fingerprints.
proof fn lemme_ancre_complete(
    pics: Seq<(usize, usize, u32)>,
    a: int,
    c: int,
    portee: nat,
    delta_max: usize,
)
    requires
        0 <= a < c < pics.len(),
        c - a <= portee,
        paire_valide(pics[a], pics[c], delta_max),
    ensures
        empreintes_ancre(pics, a, portee, delta_max).contains(empreinte(pics[a], pics[c])),
    decreases portee,
{
    let tout = empreintes_ancre(pics, a, portee, delta_max);
    let avant = empreintes_ancre(pics, a, (portee - 1) as nat, delta_max);
    if c - a < portee {
        lemme_ancre_complete(pics, a, c, (portee - 1) as nat, delta_max);
        let k = choose|k: int| 0 <= k < avant.len() && avant[k] == empreinte(pics[a], pics[c]);
        assert(tout[k] == empreinte(pics[a], pics[c]));
    } else {
        assert(tout[avant.len() as int] == empreinte(pics[a], pics[c]));
    }
}

/// No pair is left out: every anchor is paired with each of the `fan_out`
/// peaks after it that lies in a later frame, no more than `delta_max`
/// frames away.
pub proof fn lemme_empreintes_completes(
    pics: Seq<(usize, usize, u32)>,
    n: nat,
    fan_out: nat,
    delta_max: usize,
    a: int,
    c: int,
)
    requires
        n <= pics.len(),
        0 <= a < n,
        a < c < pics.len(),
        c - a <= fan_out,
        paire_valide(pics[a], pics[c], delta_max),
    ensures
        empreintes_de(pics, n, fan_out, delta_max).contains(empreinte(pics[a], pics[c])),
    decreases n,
{
    let tout = empreintes_de(pics, n, fan_out, delta_max);
    let avant = empreintes_de(pics, (n - 1) as nat, fan_out, delta_max);
    let suite = empreintes_ancre(pics, n - 1, fan_out, delta_max);
    if a < n - 1 {
        lemme_empreintes_completes(pics, (n - 1) as nat, fan_out, delta_max, a, c);
        let k = choose|k: int| 0 <= k < avant.len() && avant[k] == empreinte(pics[a], pics[c]);
        assert(tout[k] == empreinte(pics[a], pics[c]));
    } else {
        lemme_ancre_complete(pics, a, c, fan_out, delta_max);
        let k = choose|k: int| 0 <= k < suite.len() && suite[k] == empreinte(pics[a], pics[c]);
        assert(tout[avant.len() + k] == empreinte(pics[a], pics[c]));
    }
}

/// The key of a fingerprint as a number: the three fields side by side,
/// sixteen bits each, the anchor's bin highest.
pub open spec fn cle(freq_ancre: u16, freq_cible: u16, delta_temps: u16) -> int {
    freq_ancre * 0x1_0000_0000 + freq_cible * 0x1_0000 + delta_temps
}

/// Packs the three fields of a fingerprint into one 48-bit lookup key.
pub fn pack_key(freq_ancre: u16, freq_cible: u16, delta_temps: u16) -> (k: u64)
    ensures
        k == cle(freq_ancre, freq_cible, delta_temps),
        k == ((freq_ancre as u64) << 32) | ((freq_cible as u64) << 16) | (delta_temps as u64),
        k < 0x1_0000_0000_0000,
{
    let a: u64 = freq_ancre as u64;
    let c: u64 = freq_cible as u64;
    let d: u64 = delta_temps as u64;
    assert(((a << 32) | (c << 16) | d) == a * 0x1_0000_0000 + c * 0x1_0000 + d) by (bit_vector)
        requires
            a < 0x1_0000,
            c < 0x1_0000,
            d < 0x1_0000,
    ;
    (a << 32) | (c << 16) | d
}

/// Two keys are equal only if their three fields are.
pub proof fn lemme_cle_injective(a1: u16, c1: u16, d1: u16, a2: u16, c2: u16, d2: u16)
    requires
        cle(a1, c1, d1) == cle(a2, c2, d2),
    ensures
        a1 == a2 && c1 == c2 && d1 == d2,
{
}

/// Whether a fingerprint fits the stored record: sixteen bits for each of the
/// two bins and for the time between them, thirty-two for the anchor's time.
pub open spec fn empreinte_valide(e: (usize, usize, usize, usize)) -> bool {
    e.0 <= 0xFFFF && e.1 <= 0xFFFF && e.2 <= 0xFFFF && e.3 <= 0xFFFF_FFFF
}

/// Whether every fingerprint of the list fits the stored record.
pub open spec fn toutes_valides(empreintes: Seq<(usize, usize, usize, usize)>) -> bool {
    forall|i: int| 0 <= i < empreintes.len() ==> empreinte_valide(#[trigger] empreintes[i])
}

/// Tells whether every fingerprint of the list fits the stored record.
pub fn verifier_empreintes(empreintes: &Vec<(usize, usize, usize, usize)>) -> (b: bool)
    ensures
        b == toutes_valides(empreintes@),
{
    let n: usize = empreintes.len();
    let mut i: usize = 0;
    while i < n
        invariant
            i <= n,
            n == empreintes.len(),
            toutes_valides(empreintes@.take(i as int)),
        decreases n - i,
    {
        let e: (usize, usize, usize, usize) = empreintes[i];
        if e.0 > 0xFFFF || e.1 > 0xFFFF || e.2 > 0xFFFF || e.3 > 0xFFFF_FFFF {
            return false;
        }
        assert forall|j: int| 0 <= j < i + 1 implies empreinte_valide(
            #[trigger] empreintes@.take(i + 1)[j],
        ) by {
            if j < i {
                assert(empreintes@.take(i as int)[j] == empreintes@[j]);
            }
        }
        i += 1;
    }
    assert(empreintes@.take(n as int) == empreintes@);
    true
}

} // verus!
