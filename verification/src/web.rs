use vstd::prelude::*;
use crate::db::{reponse_attendue, utiliser_db, Commande};
use crate::erreur::Erreur;
use crate::fingerprint::{
    empreinte, empreinte_valide, empreintes_de, generer_empreintes, lemme_empreintes_paires, lemme_pics_du_spectrogramme,
    paire_valide, pic_du_spectrogramme, pics_de, spectrogramme_valide, toutes_valides,
    trouver_pics, vue_spectrogramme,
};

verus! {

/// The number of peaks picked in each frame.
pub const NOMBRE_PICS: usize = 5;

/// The number of following peaks that an anchor is paired with.
pub const VALEUR_FAN: usize = 5;

/// The largest number of frames between an anchor and its target.
pub const DELTA_TEMPS_MAX: usize = 200;

/// A file name without its `.mp3` ending, if it has one.
pub open spec fn sans_extension(nom: Seq<char>) -> Seq<char> {
    if nom.len() >= 4 && nom.subrange(nom.len() - 4, nom.len() as int) == seq!['.', 'm', 'p', '3'] {
        nom.take(nom.len() - 4)
    } else {
        nom
    }
}

/// The name under which an uploaded file is stored: the file's name without
/// its `.mp3` ending, and `inconnu` for a file without a name.
pub open spec fn nom_pour_db(nom_fichier: Seq<char>) -> Seq<char> {
    if nom_fichier.len() == 0 {
        "inconnu"@
    } else {
        sans_extension(nom_fichier)
    }
}

/// Gives the name under which an uploaded file is stored.
pub fn nom_chanson(nom_fichier: &str) -> (nom: String)
    ensures
        nom@ == nom_pour_db(nom_fichier@),
{
    let longueur: usize = nom_fichier.unicode_len();
    if longueur == 0 {
        return "inconnu".to_owned();
    }
    if longueur >= 4 && nom_fichier.get_char(longueur - 4) == '.' && nom_fichier.get_char(
        longueur - 3,
    ) == 'm' && nom_fichier.get_char(longueur - 2) == 'p' && nom_fichier.get_char(longueur - 1)
        == '3' {
        assert(nom_fichier@.subrange(longueur - 4, longueur as int) == seq!['.', 'm', 'p', '3']);
        nom_fichier.substring_char(0, longueur - 4).to_owned()
    } else {
        assert(longueur >= 4 ==> nom_fichier@.subrange(longueur - 4, longueur as int) != seq![
            '.',
            'm',
            'p',
            '3',
        ]) by {
            if longueur >= 4 {
                let fin = nom_fichier@.subrange(longueur - 4, longueur as int);
                assert(fin[0] == nom_fichier@[longueur - 4]);
                assert(fin[1] == nom_fichier@[longueur - 3]);
                assert(fin[2] == nom_fichier@[longueur - 2]);
                assert(fin[3] == nom_fichier@[longueur - 1]);
            }
        }
        nom_fichier.to_owned()
    }
}

/// The fingerprints of a spectrogram: its peaks, paired.
pub open spec fn empreintes_spectrogramme(s: Seq<Seq<u32>>) -> Seq<(usize, usize, usize, usize)> {
    empreintes_de(
        pics_de(s, NOMBRE_PICS as nat),
        pics_de(s, NOMBRE_PICS as nat).len(),
        VALEUR_FAN as nat,
        DELTA_TEMPS_MAX,
    )
}

/// The fingerprints are a function of the magnitudes: two spectrograms that
/// hold the same magnitudes, frame by frame, give the same fingerprints in
/// the same order.
pub proof fn lemme_empreintes_deterministes(a: Seq<Seq<u32>>, b: Seq<Seq<u32>>)
    requires
        a.len() == b.len(),
        forall|t: int| 0 <= t < a.len() ==> (#[trigger] a[t]).len() == b[t].len(),
        forall|t: int, i: int| 0 <= t < a.len() && 0 <= i < a[t].len() ==> a[t][i] == b[t][i],
    ensures
        empreintes_spectrogramme(a) == empreintes_spectrogramme(b),
{
    assert(a =~~= b);
}

/// The fingerprints of a valid spectrogram fit the stored record, so the
/// index refuses none of them: the bins are below half a window, the
/// times between peaks within the limit, the anchor times those of frames.
pub proof fn lemme_empreintes_stockables(s: Seq<Seq<u32>>)
    requires
        spectrogramme_valide(s),
        s.len() <= 0xFFFF_FFFF,
    ensures
        toutes_valides(empreintes_spectrogramme(s)),
        empreintes_spectrogramme(s).len() <= s.len() * NOMBRE_PICS * VALEUR_FAN,
{
    let pics = pics_de(s, NOMBRE_PICS as nat);
    lemme_pics_du_spectrogramme(s, NOMBRE_PICS as nat);
    lemme_empreintes_paires(pics, pics.len(), VALEUR_FAN as nat, DELTA_TEMPS_MAX);
    let empreintes = empreintes_spectrogramme(s);
    assert forall|k: int| 0 <= k < empreintes.len() implies empreinte_valide(
        #[trigger] empreintes[k],
    ) by {
        let e = empreintes[k];
        let (a, c) = choose|a: int, c: int|
            0 <= a < c < pics.len() && c - a <= VALEUR_FAN && paire_valide(
                pics[a],
                pics[c],
                DELTA_TEMPS_MAX,
            ) && e == #[trigger] empreinte(pics[a], pics[c]);
        assert(pic_du_spectrogramme(s, pics[a]));
        assert(pic_du_spectrogramme(s, pics[c]));
    }
    assert(pics.len() * VALEUR_FAN <= s.len() * NOMBRE_PICS * VALEUR_FAN) by (nonlinear_arith)
        requires
            pics.len() <= s.len() * NOMBRE_PICS,
    ;
}

/// Stores an uploaded song, given its file name and the magnitudes of its
/// spectrogram: fingerprints the spectrogram and inserts the fingerprints
/// under the song's name.
pub fn inserer_chanson(
    connexion: &mut rusqlite::Connection,
    nom_fichier: &str,
    spectrogramme: &Vec<Vec<u32>>,
) -> (r: Result<String, Erreur>)
    ensures
        !spectrogramme_valide(vue_spectrogramme(spectrogramme@)) ==> r matches Err(
            Erreur::InvalidInput,
        ),
        spectrogramme_valide(vue_spectrogramme(spectrogramme@)) ==> reponse_attendue(
            Commande::Inserer,
            Some(nom_pour_db(nom_fichier@)),
            empreintes_spectrogramme(vue_spectrogramme(spectrogramme@)),
            r,
        ),
{
    let pics = match trouver_pics(spectrogramme, NOMBRE_PICS) {
        Ok(p) => p,
        Err(e) => {
            return Err(e);
        },
    };
    let empreintes = generer_empreintes(&pics, VALEUR_FAN, DELTA_TEMPS_MAX);
    let nom: String = nom_chanson(nom_fichier);
    utiliser_db(connexion, Commande::Inserer, Some(nom.as_str()), &empreintes)
}

/// Recognises an uploaded clip, given the magnitudes of its spectrogram:
/// fingerprints the spectrogram and looks the fingerprints up.
pub fn reconnaitre_chanson(connexion: &mut rusqlite::Connection, spectrogramme: &Vec<Vec<u32>>) -> (r:
    Result<String, Erreur>)
    ensures
        !spectrogramme_valide(vue_spectrogramme(spectrogramme@)) ==> r matches Err(
            Erreur::InvalidInput,
        ),
        spectrogramme_valide(vue_spectrogramme(spectrogramme@)) ==> reponse_attendue(
            Commande::Reconnaitre,
            None,
            empreintes_spectrogramme(vue_spectrogramme(spectrogramme@)),
            r,
        ),
{
    let pics = match trouver_pics(spectrogramme, NOMBRE_PICS) {
        Ok(p) => p,
        Err(e) => {
            return Err(e);
        },
    };
    let empreintes = generer_empreintes(&pics, VALEUR_FAN, DELTA_TEMPS_MAX);
    utiliser_db(connexion, Commande::Reconnaitre, None, &empreintes)
}

} // verus!
