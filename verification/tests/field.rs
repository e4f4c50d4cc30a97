use dicemix::field::Fp;

fn fp(x: u128) -> Fp {
    Fp::from_u127(x)
}

fn p() -> u128 {
    Fp::prime()
}

#[test]
fn neg() {
    assert_eq!(-fp(0), fp(0));
    assert_eq!(-fp(5), fp(p() - 5));
}

#[test]
fn add() {
    assert_eq!(fp(7) + fp(5), fp(12));
    assert_eq!(fp(p() - 2) + fp(5), fp(3));
    assert_eq!(
        fp(75661398932549814984099328258351945610) + fp(154440289138086217180118920884960981429),
        fp(59960504610166800432530945427428821312)
    );
}

#[test]
fn sub() {
    assert_eq!(fp(7) - fp(5), fp(2));
    assert_eq!(fp(4) - fp(8), fp(p() - 4));
}

#[test]
fn mul() {
    assert_eq!(fp(4) * fp(3), fp(12));
    assert_eq!(fp(p()) * fp(291298091), fp(0));
    assert_eq!(
        fp(14766549069271113692204649107775507741) * fp(153613967287097206589234951623852979690),
        fp(113548737858505840193892055835373785352)
    );
    // Two reductions are necessary for the following example.
    assert_eq!(
        fp(75661398932549814984099328258351945610) * fp(154440289138086217180118920884960981429),
        fp(109146875586984049909139102289297416971)
    );
}

#[test]
fn eq() {
    assert_eq!(fp(0), fp(p()));
    assert!(fp(17) != fp(4));
    assert!(fp(0) != fp(4));
    assert!(fp(p()) != fp(17));
}

#[test]
fn assign() {
    let mut a = fp(17);

    a += fp(3);
    assert_eq!(a, fp(20));

    a -= fp(5);
    assert_eq!(a, fp(15));

    a *= fp(2);
    assert_eq!(a, fp(30));
}

#[test]
fn it_works() {}
