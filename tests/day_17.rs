use everybody_codes::day_17::{sum_by_distance, sum_within_radius, Day17, ParseError, Tile};

const EXAMPLE1: &str = "189482189843433862719\n279415473483436249988\n432746714658787816631\n428219317375373724944\n938163982835287292238\n627369424372196193484\n539825864246487765271\n517475755641128575965\n685934212385479112825\n815992793826881115341\n1737798467@7983146242\n867597735651751839244\n868364647534879928345\n519348954366296559425\n134425275832833829382\n764324337429656245499\n654662236199275446914\n317179356373398118618\n542673939694417586329\n987342622289291613318\n971977649141188759131";

const EXAMPLE2: &str = "4547488458944\n9786999467759\n6969499575989\n7775645848998\n6659696497857\n5569777444746\n968586@767979\n6476956899989\n5659745697598\n6874989897744\n6479994574886\n6694118785585\n9568991647449";

#[test]
fn day_17_test_part_1() {
    let input = Day17::parse(EXAMPLE1).unwrap();
    let result = Day17::part_1(&input);
    assert_eq!(result, 1573);
}

#[test]
fn day_17_test_part_2() {
    let input = Day17::parse(EXAMPLE2).unwrap();
    let result = Day17::part_2(&input);
    assert_eq!(result, 1090);
}

#[test]
fn day_17_small_maps() {
    let input = Day17::parse("123\n4@5\n678").unwrap();
    assert_eq!(input.volcano, Some((1, 1)));
    // Radius 1 takes the four neighbours in line: 2 + 4 + 5 + 7.
    assert_eq!(sum_within_radius(&input, (1, 1), 1), 18);
    // Distance 1 holds the same four cells; the border is at distance 1.
    assert_eq!(sum_by_distance(&input, (1, 1)), vec![0, 18]);
    assert_eq!(Tile::try_from(b'S'), Ok(Tile::Start));
    assert_eq!(Day17::parse("1x").unwrap_err(), ParseError::InvalidTile(b'x'));
}

const EXAMPLE3A: &str = "2645233S5466644\n634566343252465\n353336645243246\n233343552544555\n225243326235365\n536334634462246\n666344656233244\n6426432@2366453\n364346442652235\n253652463426433\n426666225623563\n555462553462364\n346225464436334\n643362324542432\n463332353552464";
const EXAMPLE3B: &str = "545233443422255434324\n5222533434S2322342222\n523444354223232542432\n553522225435232255242\n232343243532432452524\n245245322252324442542\n252533232225244224355\n523533554454232553332\n522332223232242523223\n524523432425432244432\n3532242243@4323422334\n542524223994422443222\n252343244322522222332\n253355425454255523242\n344324325233443552555\n423523225325255345522\n244333345244325322335\n242244352245522323422\n443332352222535334325\n323532222353523253542\n553545434425235223552";
const EXAMPLE3C: &str = "5441525241225111112253553251553\n133522122534119S911411222155114\n3445445533355599933443455544333\n3345333555434334535435433335533\n5353333345335554434535533555354\n3533533435355443543433453355553\n3553353435335554334453355435433\n5435355533533355533535335345335\n4353545353545354555534334453353\n4454543553533544443353355553453\n5334554534533355333355543533454\n4433333345445354553533554555533\n5554454343455334355445533453453\n4435554534445553335434455334353\n3533435453433535345355533545555\n534433533533535@353533355553345\n4453545555435334544453344455554\n4353333535535354535353353535355\n4345444453554554535355345343354\n3534544535533355333333445433555\n3535333335335334333534553543535\n5433355333553344355555344553435\n5355535355535334555435534555344\n3355433335553553535334544544333\n3554333535553335343555345553535\n3554433545353554334554345343343\n5533353435533535333355343333555\n5355555353355553535354333535355\n4344534353535455333455353335333\n5444333535533453535335454535553\n3534343355355355553543545553345";

#[test]
fn day_17_part_3_examples() {
    assert_eq!(Day17::part_3(&Day17::parse(EXAMPLE3A).unwrap()), Some(592));
    assert_eq!(Day17::part_3(&Day17::parse(EXAMPLE3B).unwrap()), Some(330));
    assert_eq!(Day17::part_3(&Day17::parse(EXAMPLE3C).unwrap()), Some(3180));
}
