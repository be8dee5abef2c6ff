use secret_shares::share::Share;
use secret_shares::shuffle::{
    shuffle, shuffle_points, shuffle_set, unshuffle, unshuffle_points, unshuffle_set,
};

#[test]
fn shuffle_gives_the_planned_permutation() {
    let mut ys = vec![1, 2, 3, 4, 5];
    shuffle_points(&mut ys, b"pw", 7);
    assert_eq!(ys, vec![3, 2, 5, 1, 4]);

    let mut ys: Vec<u8> = (10..20).collect();
    shuffle_points(&mut ys, b"correct horse", 3);
    assert_eq!(ys, vec![13, 18, 12, 14, 16, 15, 10, 17, 11, 19]);
}

#[test]
fn shuffle_depends_on_the_coordinate() {
    let mut a = vec![1, 2, 3, 4, 5];
    let mut b = vec![1, 2, 3, 4, 5];
    shuffle_points(&mut a, b"pw", 7);
    shuffle_points(&mut b, b"pw", 8);
    assert_eq!(a, vec![3, 2, 5, 1, 4]);
    assert_eq!(b, vec![2, 3, 4, 5, 1]);
}

#[test]
fn shuffle_leaves_short_lists_alone() {
    let mut none: Vec<u8> = vec![];
    shuffle_points(&mut none, b"pw", 7);
    assert_eq!(none, Vec::<u8>::new());
    let mut one = vec![9];
    shuffle_points(&mut one, b"pw", 7);
    assert_eq!(one, vec![9]);
}

#[test]
fn unshuffle_undoes_shuffle() {
    let passwords: [&[u8]; 4] = [b"", b"a", b"pw", b"a much longer password, with spaces"];
    for password in passwords {
        for len in 0..40usize {
            for x in [1u8, 2, 77, 255] {
                let plain: Vec<u8> = (0..len).map(|i| (i * 7 + 3) as u8).collect();
                let mut ys = plain.clone();
                shuffle_points(&mut ys, password, x);
                let mut sorted = ys.clone();
                sorted.sort();
                let mut expected = plain.clone();
                expected.sort();
                assert_eq!(sorted, expected);
                unshuffle_points(&mut ys, password, x);
                assert_eq!(ys, plain);
            }
        }
    }
}

#[test]
fn shuffle_undoes_unshuffle() {
    let plain: Vec<u8> = (0..100).collect();
    let mut ys = plain.clone();
    unshuffle_points(&mut ys, b"secret", 9);
    assert_ne!(ys, plain);
    shuffle_points(&mut ys, b"secret", 9);
    assert_eq!(ys, plain);
}

#[test]
fn another_password_does_not_undo_the_shuffle() {
    let plain = vec![1, 2, 3, 4, 5];
    let mut ys = plain.clone();
    shuffle_points(&mut ys, b"pw", 7);
    unshuffle_points(&mut ys, b"pW", 7);
    assert_eq!(ys, vec![3, 2, 5, 4, 1]);
    assert_ne!(ys, plain);
}

#[test]
fn passwords_that_shuffle_alike_undo_each_other() {
    // On two points the passwords "a" and "c" both exchange them, "b" does not.
    let mut ys = vec![1, 2];
    shuffle_points(&mut ys, b"a", 1);
    assert_eq!(ys, vec![2, 1]);
    unshuffle_points(&mut ys, b"c", 1);
    assert_eq!(ys, vec![1, 2]);

    let mut ys = vec![1, 2];
    shuffle_points(&mut ys, b"a", 1);
    unshuffle_points(&mut ys, b"b", 1);
    assert_eq!(ys, vec![2, 1]);
}

#[test]
fn share_keeps_its_coordinate() {
    let mut share = Share { x: 7, ys: vec![1, 2, 3, 4, 5] };
    shuffle(&mut share, b"pw");
    assert_eq!(share, Share { x: 7, ys: vec![3, 2, 5, 1, 4] });
    unshuffle(&mut share, b"pw");
    assert_eq!(share, Share { x: 7, ys: vec![1, 2, 3, 4, 5] });
}

#[test]
fn set_is_shuffled_share_by_share() {
    let plain = vec![
        Share { x: 7, ys: vec![1, 2, 3, 4, 5] },
        Share { x: 8, ys: vec![1, 2, 3, 4, 5] },
    ];
    let mut shares = plain.clone();
    shuffle_set(&mut shares, b"pw");
    assert_eq!(
        shares,
        vec![
            Share { x: 7, ys: vec![3, 2, 5, 1, 4] },
            Share { x: 8, ys: vec![2, 3, 4, 5, 1] },
        ]
    );
    unshuffle_set(&mut shares, b"pw");
    assert_eq!(shares, plain);
}
