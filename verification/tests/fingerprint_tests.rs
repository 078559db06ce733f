use empreintes::erreur::Erreur;
use empreintes::fingerprint::{
    decouper_fenetres, demi_spectre, generer_empreintes, pack_key, trouver_pics,
    verifier_empreintes, verifier_fenetre, AMPLITUDE_MAX, DEMI_FENETRE, TAILLE_FENETRE, TAILLE_SAUT,
};

#[test]
fn pack_key_places_the_three_fields() {
    assert_eq!(pack_key(100, 200, 10), (100u64 << 32) | (200u64 << 16) | 10);
    assert_eq!(pack_key(100, 200, 10), 429_509_836_810);
}

#[test]
fn pack_key_is_the_same_on_every_call() {
    let premier = pack_key(100, 200, 10);
    for _ in 0..10 {
        assert_eq!(pack_key(100, 200, 10), premier);
    }
}

#[test]
fn pack_key_extremes() {
    assert_eq!(pack_key(0, 0, 0), 0);
    assert_eq!(pack_key(0xFFFF, 0xFFFF, 0xFFFF), 0xFFFF_FFFF_FFFF);
    assert_eq!(pack_key(1, 0, 0), 1 << 32);
    assert_eq!(pack_key(0, 1, 0), 1 << 16);
    assert_eq!(pack_key(0, 0, 1), 1);
}

#[test]
fn no_samples_give_no_window() {
    let fenetres = decouper_fenetres(&Vec::<i32>::new(), 0);
    assert!(fenetres.is_empty());
}

#[test]
fn one_sample_gives_one_padded_window() {
    let fenetres = decouper_fenetres(&vec![7i32], 0);
    assert_eq!(fenetres.len(), 1);
    assert_eq!(fenetres[0].len(), TAILLE_FENETRE);
    assert_eq!(fenetres[0][0], 7);
    assert!(fenetres[0][1..].iter().all(|&x| x == 0));
}

#[test]
fn a_whole_window_gives_one_window() {
    let echantillons: Vec<i32> = (0..1024).collect();
    let fenetres = decouper_fenetres(&echantillons, -1);
    assert_eq!(fenetres.len(), 1);
    assert_eq!(fenetres[0], echantillons);
}

#[test]
fn one_sample_more_than_a_window_gives_three_windows() {
    let echantillons: Vec<i32> = (0..1025).collect();
    let fenetres = decouper_fenetres(&echantillons, -1);
    assert_eq!(fenetres.len(), 3);
    for (i, fenetre) in fenetres.iter().enumerate() {
        assert_eq!(fenetre.len(), TAILLE_FENETRE);
        for (j, &valeur) in fenetre.iter().enumerate() {
            let position = i * TAILLE_SAUT + j;
            let attendu = if position < 1025 { position as i32 } else { -1 };
            assert_eq!(valeur, attendu);
        }
    }
    assert_eq!(fenetres[2][0], 1024);
    assert_eq!(fenetres[2][1], -1);
}

#[test]
fn windows_overlap_by_half() {
    let echantillons: Vec<u32> = (0..5000).collect();
    let fenetres = decouper_fenetres(&echantillons, 0);
    assert_eq!(fenetres.len(), 9);
    for i in 0..fenetres.len() - 1 {
        assert_eq!(fenetres[i][TAILLE_SAUT..], fenetres[i + 1][..TAILLE_SAUT]);
    }
    assert_eq!(fenetres[8][0], 4096);
    assert_eq!(fenetres[8][903], 4999);
    assert_eq!(fenetres[8][904], 0);
}

#[test]
fn window_counts() {
    for (n, attendu) in [(0usize, 0usize), (1, 1), (1023, 1), (1024, 1), (1025, 3), (2048, 3), (2049, 5), (88200, 173)] {
        let echantillons = vec![1u8; n];
        assert_eq!(decouper_fenetres(&echantillons, 0).len(), attendu, "n = {}", n);
    }
}

#[test]
fn windows_of_numbers_with_a_fraction() {
    let echantillons = vec![0.25f32; 600];
    let fenetres = decouper_fenetres(&echantillons, 0.0f32);
    assert_eq!(fenetres.len(), 1);
    assert_eq!(fenetres[0][599], 0.25);
    assert_eq!(fenetres[0][600], 0.0);
}

#[test]
fn half_a_spectrum() {
    assert_eq!(demi_spectre(&Vec::<u8>::new()), Vec::<u8>::new());
    assert_eq!(demi_spectre(&vec![1]), Vec::<i32>::new());
    assert_eq!(demi_spectre(&vec![1, 2, 3, 4]), vec![1, 2]);
    assert_eq!(demi_spectre(&vec![1, 2, 3, 4, 5]), vec![1, 2]);
    let spectre: Vec<u32> = (0..1024).collect();
    let moitie = demi_spectre(&spectre);
    assert_eq!(moitie.len(), DEMI_FENETRE);
    assert_eq!(moitie, (0..512).collect::<Vec<u32>>());
}

#[test]
fn peaks_come_strongest_first() {
    let spectrogramme = vec![vec![1u32, 5, 3, 9, 2]];
    let pics = trouver_pics(&spectrogramme, 3).unwrap();
    assert_eq!(pics, vec![(0, 3, 9), (0, 1, 5), (0, 2, 3)]);
}

#[test]
fn equal_peaks_come_lower_bin_first() {
    let spectrogramme = vec![vec![7u32, 7, 7, 7], vec![1, 4, 4, 1, 4]];
    let pics = trouver_pics(&spectrogramme, 2).unwrap();
    assert_eq!(pics, vec![(0, 0, 7), (0, 1, 7), (1, 1, 4), (1, 2, 4)]);
    let pics = trouver_pics(&spectrogramme, 5).unwrap();
    assert_eq!(
        pics,
        vec![(0, 0, 7), (0, 1, 7), (0, 2, 7), (0, 3, 7), (1, 1, 4), (1, 2, 4), (1, 4, 4), (1, 0, 1), (1, 3, 1)]
    );
}

#[test]
fn a_frame_with_few_bins_gives_them_all() {
    let spectrogramme = vec![vec![2u32, 8], vec![], vec![5]];
    let pics = trouver_pics(&spectrogramme, 5).unwrap();
    assert_eq!(pics, vec![(0, 1, 8), (0, 0, 2), (2, 0, 5)]);
}

#[test]
fn no_peak_is_asked_for() {
    let spectrogramme = vec![vec![2u32, 8], vec![5]];
    assert_eq!(trouver_pics(&spectrogramme, 0).unwrap(), vec![]);
    assert_eq!(trouver_pics(&Vec::new(), 5).unwrap(), vec![]);
}

#[test]
fn magnitudes_order_as_the_numbers_they_stand_for() {
    let amplitudes = [0.5f32, 2.0, 1.0, 0.0, 1.0e-20, 3.5e10];
    let spectrogramme = vec![amplitudes.iter().map(|a| a.to_bits()).collect::<Vec<u32>>()];
    let pics = trouver_pics(&spectrogramme, 6).unwrap();
    let bins: Vec<usize> = pics.iter().map(|p| p.1).collect();
    assert_eq!(bins, vec![5, 1, 2, 0, 4, 3]);
    assert_eq!(f32::from_bits(pics[0].2), 3.5e10);
}

#[test]
fn a_value_that_is_no_magnitude_is_refused() {
    let spectrogramme = vec![vec![1u32, 2], vec![3, f32::NAN.to_bits()]];
    assert!(matches!(trouver_pics(&spectrogramme, 5), Err(Erreur::InvalidInput)));
    let spectrogramme = vec![vec![(-1.0f32).to_bits()]];
    assert!(matches!(trouver_pics(&spectrogramme, 5), Err(Erreur::InvalidInput)));
    let spectrogramme = vec![vec![AMPLITUDE_MAX + 1]];
    assert!(matches!(trouver_pics(&spectrogramme, 0), Err(Erreur::InvalidInput)));
    let spectrogramme = vec![vec![AMPLITUDE_MAX, 0]];
    assert_eq!(trouver_pics(&spectrogramme, 1).unwrap(), vec![(0, 0, AMPLITUDE_MAX)]);
    assert_eq!(f32::INFINITY.to_bits(), AMPLITUDE_MAX);
}

#[test]
fn a_spectrum_with_its_mirror_half_is_refused() {
    let spectrogramme = vec![vec![1u32; DEMI_FENETRE]];
    assert_eq!(trouver_pics(&spectrogramme, 5).unwrap().len(), 5);
    let spectrogramme = vec![vec![1u32; DEMI_FENETRE + 1]];
    assert!(matches!(trouver_pics(&spectrogramme, 5), Err(Erreur::InvalidInput)));
    let spectrogramme = vec![vec![1u32; 4], vec![1u32; TAILLE_FENETRE]];
    assert!(matches!(trouver_pics(&spectrogramme, 5), Err(Erreur::InvalidInput)));
}

#[test]
fn pairs_within_fan_out_and_time_limit() {
    let pics = vec![(0usize, 10usize, 0u32), (0, 20, 0), (1, 30, 0), (2, 40, 0), (300, 50, 0)];
    let empreintes = generer_empreintes(&pics, 5, 200);
    assert_eq!(
        empreintes,
        vec![(10, 30, 1, 0), (10, 40, 2, 0), (20, 30, 1, 0), (20, 40, 2, 0), (30, 40, 1, 1)]
    );
}

#[test]
fn the_time_limit_is_included() {
    let pics = vec![(0usize, 1usize, 0u32), (200, 2, 0), (201, 3, 0)];
    assert_eq!(generer_empreintes(&pics, 5, 200), vec![(1, 2, 200, 0), (2, 3, 1, 200)]);
    assert_eq!(generer_empreintes(&pics, 5, 201), vec![(1, 2, 200, 0), (1, 3, 201, 0), (2, 3, 1, 200)]);
    assert_eq!(generer_empreintes(&pics, 5, 0), vec![]);
}

#[test]
fn fan_out_bounds_the_look_ahead() {
    let pics: Vec<(usize, usize, u32)> = (0..6).map(|t| (t, 100 + t, 0)).collect();
    assert_eq!(generer_empreintes(&pics, 0, 200), vec![]);
    assert_eq!(
        generer_empreintes(&pics, 1, 200),
        vec![(100, 101, 1, 0), (101, 102, 1, 1), (102, 103, 1, 2), (103, 104, 1, 3), (104, 105, 1, 4)]
    );
    let deux = generer_empreintes(&pics, 2, 200);
    assert_eq!(deux.len(), 9);
    assert_eq!(deux[0], (100, 101, 1, 0));
    assert_eq!(deux[1], (100, 102, 2, 0));
    assert_eq!(generer_empreintes(&pics, usize::MAX, 200).len(), 15);
}

#[test]
fn a_target_in_an_earlier_frame_is_no_pair() {
    let pics = vec![(5usize, 1usize, 0u32), (3, 2, 0), (5, 3, 0), (6, 4, 0)];
    assert_eq!(generer_empreintes(&pics, 5, 200), vec![(1, 4, 1, 5), (2, 3, 2, 3), (2, 4, 3, 3), (3, 4, 1, 5)]);
    assert_eq!(generer_empreintes(&Vec::new(), 5, 200), vec![]);
    assert_eq!(generer_empreintes(&vec![(0, 0, 0)], 5, 200), vec![]);
}

#[test]
fn five_peaks_a_frame_give_fifteen_fingerprints_a_frame() {
    let spectrogramme: Vec<Vec<u32>> =
        (0..10u32).map(|t| (0..64u32).map(|b| (b * 37 + t * 11) % 101).collect()).collect();
    let pics = trouver_pics(&spectrogramme, 5).unwrap();
    assert_eq!(pics.len(), 50);
    let empreintes = generer_empreintes(&pics, 5, 200);
    assert_eq!(empreintes.len(), 9 * 15);
    assert!(empreintes.iter().all(|e| e.2 == 1 && e.0 < 64 && e.1 < 64));
    assert!(verifier_empreintes(&empreintes));
}

#[test]
fn fingerprints_that_fit_the_record() {
    assert!(verifier_empreintes(&Vec::new()));
    assert!(verifier_empreintes(&vec![(0, 0, 0, 0), (0xFFFF, 0xFFFF, 0xFFFF, 0xFFFF_FFFF)]));
    assert!(!verifier_empreintes(&vec![(0x1_0000, 0, 0, 0)]));
    assert!(!verifier_empreintes(&vec![(0, 0x1_0000, 0, 0)]));
    assert!(!verifier_empreintes(&vec![(0, 0, 0x1_0000, 0)]));
    assert!(!verifier_empreintes(&vec![(1, 2, 3, 4), (0, 0, 0, 0x1_0000_0000)]));
}

#[test]
fn peaks_and_fingerprints_are_the_same_on_every_run() {
    let spectrogramme: Vec<Vec<u32>> =
        (0..40u32).map(|t| (0..512u32).map(|b| (b * 7919 + t * 104_729) % 65_521).collect()).collect();
    let premier = generer_empreintes(&trouver_pics(&spectrogramme, 5).unwrap(), 5, 200);
    for _ in 0..3 {
        let copie = spectrogramme.clone();
        let suivant = generer_empreintes(&trouver_pics(&copie, 5).unwrap(), 5, 200);
        assert_eq!(suivant, premier);
    }
}

#[test]
fn only_a_buffer_of_the_window_length_is_a_window() {
    assert!(verifier_fenetre(&vec![0.0f32; TAILLE_FENETRE]).is_ok());
    assert!(verifier_fenetre(&[7u8; 1024]).is_ok());
    assert!(matches!(verifier_fenetre(&vec![0.0f32; TAILLE_FENETRE - 1]), Err(Erreur::InvalidInput)));
    assert!(matches!(verifier_fenetre(&vec![0.0f32; TAILLE_FENETRE + 1]), Err(Erreur::InvalidInput)));
    assert!(matches!(verifier_fenetre(&Vec::<f32>::new()), Err(Erreur::InvalidInput)));
    assert!(matches!(verifier_fenetre(&vec![0i16; 2 * TAILLE_FENETRE]), Err(Erreur::InvalidInput)));
}
