//! The constants of the Frobenius maps by their products.

use crate::math::curve::{coeff_b2, twist_q_x, twist_q_y};
use crate::math::field::{fadd, fmul, fsub, lemma_constants, lemma_fneg_neg, modulus};
use crate::math::ring::lemma_mul2_commutes;
use crate::math::tower::{add2, ext2, frob12_c1, frob2, frob6_c1, frob6_c2, mul2, sqr2, xi};
use vstd::prelude::*;

verus! {

/// What the constants of the Frobenius maps are to each other: the map takes
/// `v` to `frob6_c1 v`, its square to `frob6_c2 v^2`, and `w` to `frob12_c1 w`.
pub proof fn lemma_frobenius_constants(k: nat)
    requires
        1 <= k <= 3,
    ensures
        mul2(frob6_c1(k), frob6_c1(k)) == frob6_c2(k),
        mul2(frob12_c1(k), frob12_c1(k)) == frob6_c1(k),
        mul2(mul2(frob6_c1(k), frob6_c2(k)), xi()) == frob2(xi(), k),
{
    reveal(frob2);
    lemma_constants();
    lemma_fneg_neg(1);
    assert(modulus()
        == 21888242871839275222246405745257275088696311157297823662689037894645226208583nat) by {
        reveal(modulus);
    }
    if k == 1 {
        lemma_frob_square_1();
        lemma_frob_root_1();
        lemma_frob_cube_1();
        lemma_frob_xi_1();
    } else if k == 2 {
        lemma_frob_square_2();
        lemma_frob_root_2();
        lemma_frob_cube_2();
        lemma_frob_xi_2();
    } else {
        lemma_frob_square_3();
        lemma_frob_root_3();
        lemma_frob_cube_3();
        lemma_frob_xi_3();
    }
}

proof fn lemma_frob_square_1()
    ensures
        mul2(frob6_c1(1), frob6_c1(1)) == frob6_c2(1),
{
    reveal(mul2);
    reveal(fmul);
    reveal(fadd);
    reveal(fsub);
    reveal(modulus);
    assert(fmul(
        21575463638280843010398324269430826099269044274347216827212613867836435027261nat,
        21575463638280843010398324269430826099269044274347216827212613867836435027261nat,
    ) == 12235077108153142277654878187788978133414686509774129191291281947166627451477nat);
    assert(fmul(
        10307601595873709700152284273816112264069230130616436755625194854815875713954nat,
        10307601595873709700152284273816112264069230130616436755625194854815875713954nat,
    ) == 9653165763686132942387567072320175033863020904697932450423476688598393105139nat);
    assert(fmul(
        21575463638280843010398324269430826099269044274347216827212613867836435027261nat,
        10307601595873709700152284273816112264069230130616436755625194854815875713954nat,
    ) == 9968878485887823993997966084964670997157320326482474724156687236200358330515nat);
    assert(fmul(
        10307601595873709700152284273816112264069230130616436755625194854815875713954nat,
        21575463638280843010398324269430826099269044274347216827212613867836435027261nat,
    ) == 9968878485887823993997966084964670997157320326482474724156687236200358330515nat);
    assert(fsub(
        12235077108153142277654878187788978133414686509774129191291281947166627451477nat,
        9653165763686132942387567072320175033863020904697932450423476688598393105139nat,
    ) == 2581911344467009335267311115468803099551665605076196740867805258568234346338nat);
    assert(fadd(
        9968878485887823993997966084964670997157320326482474724156687236200358330515nat,
        9968878485887823993997966084964670997157320326482474724156687236200358330515nat,
    ) == 19937756971775647987995932169929341994314640652964949448313374472400716661030nat);
}

proof fn lemma_frob_root_1()
    ensures
        mul2(frob12_c1(1), frob12_c1(1)) == frob6_c1(1),
{
    reveal(mul2);
    reveal(fmul);
    reveal(fadd);
    reveal(fsub);
    reveal(modulus);
    assert(fmul(
        8376118865763821496583973867626364092589906065868298776909617916018768340080nat,
        8376118865763821496583973867626364092589906065868298776909617916018768340080nat,
    ) == 21731853255060059115220384764769989633273375844409639234463686251800727791939nat);
    assert(fmul(
        16469823323077808223889137241176536799009286646108169935659301613961712198316nat,
        16469823323077808223889137241176536799009286646108169935659301613961712198316nat,
    ) == 156389616779216104822060495339163534004331570062422407251072383964292764678nat);
    assert(fmul(
        8376118865763821496583973867626364092589906065868298776909617916018768340080nat,
        16469823323077808223889137241176536799009286646108169935659301613961712198316nat,
    ) == 5153800797936854850076142136908056132034615065308218377812597427407937856977nat);
    assert(fmul(
        16469823323077808223889137241176536799009286646108169935659301613961712198316nat,
        8376118865763821496583973867626364092589906065868298776909617916018768340080nat,
    ) == 5153800797936854850076142136908056132034615065308218377812597427407937856977nat);
    assert(fsub(
        21731853255060059115220384764769989633273375844409639234463686251800727791939nat,
        156389616779216104822060495339163534004331570062422407251072383964292764678nat,
    ) == 21575463638280843010398324269430826099269044274347216827212613867836435027261nat);
    assert(fadd(
        5153800797936854850076142136908056132034615065308218377812597427407937856977nat,
        5153800797936854850076142136908056132034615065308218377812597427407937856977nat,
    ) == 10307601595873709700152284273816112264069230130616436755625194854815875713954nat);
}

proof fn lemma_frob_cube_1()
    ensures
        mul2(
            frob6_c1(1),
            frob6_c2(1),
        ) == ext2(
            7474034151359752514913406839843947591262155029321208079942598305488613827322nat,
            1601578746719946967481444322823703055270461791997401731416271065461845820140nat,
        ),
{
    reveal(mul2);
    reveal(fmul);
    reveal(fadd);
    reveal(fsub);
    reveal(modulus);
    assert(fmul(
        21575463638280843010398324269430826099269044274347216827212613867836435027261nat,
        2581911344467009335267311115468803099551665605076196740867805258568234346338nat,
    ) == 16567138952559440756796753885907540459483769890218113757202509059725129690583nat);
    assert(fmul(
        10307601595873709700152284273816112264069230130616436755625194854815875713954nat,
        19937756971775647987995932169929341994314640652964949448313374472400716661030nat,
    ) == 9093104801199688241883347046063592868221614860896905677259910754236515863261nat);
    assert(fmul(
        21575463638280843010398324269430826099269044274347216827212613867836435027261nat,
        19937756971775647987995932169929341994314640652964949448313374472400716661030nat,
    ) == 1919087121343596077881572785513442425195765347301631479635766101641394914533nat);
    assert(fmul(
        10307601595873709700152284273816112264069230130616436755625194854815875713954nat,
        2581911344467009335267311115468803099551665605076196740867805258568234346338nat,
    ) == 21570734497215626111846277282567535718771007601993593914469542858465677114190nat);
    assert(fsub(
        16567138952559440756796753885907540459483769890218113757202509059725129690583nat,
        9093104801199688241883347046063592868221614860896905677259910754236515863261nat,
    ) == 7474034151359752514913406839843947591262155029321208079942598305488613827322nat);
    assert(fadd(
        1919087121343596077881572785513442425195765347301631479635766101641394914533nat,
        21570734497215626111846277282567535718771007601993593914469542858465677114190nat,
    ) == 1601578746719946967481444322823703055270461791997401731416271065461845820140nat);
}

proof fn lemma_frob_xi_1()
    ensures
        mul2(
            ext2(
                7474034151359752514913406839843947591262155029321208079942598305488613827322nat,
                1601578746719946967481444322823703055270461791997401731416271065461845820140nat,
            ),
            xi(),
        ) == ext2(
            9nat,
            21888242871839275222246405745257275088696311157297823662689037894645226208582nat,
        ),
{
    reveal(mul2);
    reveal(fmul);
    reveal(fadd);
    reveal(fsub);
    reveal(modulus);
    assert(fmul(
        7474034151359752514913406839843947591262155029321208079942598305488613827322nat,
        9nat,
    ) == 1601578746719946967481444322823703055270461791997401731416271065461845820149nat);
    assert(fmul(
        1601578746719946967481444322823703055270461791997401731416271065461845820140nat,
        1nat,
    ) == 1601578746719946967481444322823703055270461791997401731416271065461845820140nat);
    assert(fmul(
        7474034151359752514913406839843947591262155029321208079942598305488613827322nat,
        1nat,
    ) == 7474034151359752514913406839843947591262155029321208079942598305488613827322nat);
    assert(fmul(
        1601578746719946967481444322823703055270461791997401731416271065461845820140nat,
        9nat,
    ) == 14414208720479522707332998905413327497434156127976615582746439589156612381260nat);
    assert(fsub(
        1601578746719946967481444322823703055270461791997401731416271065461845820149nat,
        1601578746719946967481444322823703055270461791997401731416271065461845820140nat,
    ) == 9nat);
    assert(fadd(
        7474034151359752514913406839843947591262155029321208079942598305488613827322nat,
        14414208720479522707332998905413327497434156127976615582746439589156612381260nat,
    ) == 21888242871839275222246405745257275088696311157297823662689037894645226208582nat);
}

proof fn lemma_frob_square_2()
    ensures
        mul2(frob6_c1(2), frob6_c1(2)) == frob6_c2(2),
{
    reveal(mul2);
    reveal(fmul);
    reveal(fadd);
    reveal(fsub);
    reveal(modulus);
    assert(fmul(
        21888242871839275220042445260109153167277707414472061641714758635765020556616nat,
        21888242871839275220042445260109153167277707414472061641714758635765020556616nat,
    ) == 2203960485148121921418603742825762020974279258880205651966nat);
    assert(fmul(0nat, 0nat) == 0nat);
    assert(fmul(
        21888242871839275220042445260109153167277707414472061641714758635765020556616nat,
        0nat,
    ) == 0nat);
    assert(fmul(
        0nat,
        21888242871839275220042445260109153167277707414472061641714758635765020556616nat,
    ) == 0nat);
    assert(fsub(
        2203960485148121921418603742825762020974279258880205651966nat,
        0nat,
    ) == 2203960485148121921418603742825762020974279258880205651966nat);
    assert(fadd(0nat, 0nat) == 0nat);
}

proof fn lemma_frob_root_2()
    ensures
        mul2(frob12_c1(2), frob12_c1(2)) == frob6_c1(2),
{
    reveal(mul2);
    reveal(fmul);
    reveal(fadd);
    reveal(fsub);
    reveal(modulus);
    assert(fmul(
        21888242871839275220042445260109153167277707414472061641714758635765020556617nat,
        21888242871839275220042445260109153167277707414472061641714758635765020556617nat,
    ) == 21888242871839275220042445260109153167277707414472061641714758635765020556616nat);
    assert(fmul(0nat, 0nat) == 0nat);
    assert(fmul(
        21888242871839275220042445260109153167277707414472061641714758635765020556617nat,
        0nat,
    ) == 0nat);
    assert(fmul(
        0nat,
        21888242871839275220042445260109153167277707414472061641714758635765020556617nat,
    ) == 0nat);
    assert(fsub(
        21888242871839275220042445260109153167277707414472061641714758635765020556616nat,
        0nat,
    ) == 21888242871839275220042445260109153167277707414472061641714758635765020556616nat);
    assert(fadd(0nat, 0nat) == 0nat);
}

pub proof fn lemma_frob_cube_2()
    ensures
        mul2(frob6_c1(2), frob6_c2(2)) == ext2(1nat, 0nat),
{
    reveal(mul2);
    reveal(fmul);
    reveal(fadd);
    reveal(fsub);
    reveal(modulus);
    assert(fmul(
        21888242871839275220042445260109153167277707414472061641714758635765020556616nat,
        2203960485148121921418603742825762020974279258880205651966nat,
    ) == 1nat);
    assert(fmul(0nat, 0nat) == 0nat);
    assert(fmul(
        21888242871839275220042445260109153167277707414472061641714758635765020556616nat,
        0nat,
    ) == 0nat);
    assert(fmul(0nat, 2203960485148121921418603742825762020974279258880205651966nat) == 0nat);
    assert(fsub(1nat, 0nat) == 1nat);
    assert(fadd(0nat, 0nat) == 0nat);
}

proof fn lemma_frob_xi_2()
    ensures
        mul2(ext2(1nat, 0nat), xi()) == ext2(9nat, 1nat),
{
    reveal(mul2);
    reveal(fmul);
    reveal(fadd);
    reveal(fsub);
    reveal(modulus);
    assert(fmul(1nat, 9nat) == 9nat);
    assert(fmul(0nat, 1nat) == 0nat);
    assert(fmul(1nat, 1nat) == 1nat);
    assert(fmul(0nat, 9nat) == 0nat);
    assert(fsub(9nat, 0nat) == 9nat);
    assert(fadd(1nat, 0nat) == 1nat);
}

proof fn lemma_frob_square_3()
    ensures
        mul2(frob6_c1(3), frob6_c1(3)) == frob6_c2(3),
{
    reveal(mul2);
    reveal(fmul);
    reveal(fadd);
    reveal(fsub);
    reveal(modulus);
    assert(fmul(
        3772000881919853776433695186713858239009073593817195771773381919316419345261nat,
        3772000881919853776433695186713858239009073593817195771773381919316419345261nat,
    ) == 13606361037144589382486594570381744785312284459849233471234690631601261672151nat);
    assert(fmul(
        2236595495967245188281701248203181795121068902605861227855261137820944008926nat,
        2236595495967245188281701248203181795121068902605861227855261137820944008926nat,
    ) == 8281881834694685839759811174875530303384026697448590191454347263043964536433nat);
    assert(fmul(
        3772000881919853776433695186713858239009073593817195771773381919316419345261nat,
        2236595495967245188281701248203181795121068902605861227855261137820944008926nat,
    ) == 19048571626288484153582950436295831535045018788577356231303476037817035165811nat);
    assert(fmul(
        2236595495967245188281701248203181795121068902605861227855261137820944008926nat,
        3772000881919853776433695186713858239009073593817195771773381919316419345261nat,
    ) == 19048571626288484153582950436295831535045018788577356231303476037817035165811nat);
    assert(fsub(
        13606361037144589382486594570381744785312284459849233471234690631601261672151nat,
        8281881834694685839759811174875530303384026697448590191454347263043964536433nat,
    ) == 5324479202449903542726783395506214481928257762400643279780343368557297135718nat);
    assert(fadd(
        19048571626288484153582950436295831535045018788577356231303476037817035165811nat,
        19048571626288484153582950436295831535045018788577356231303476037817035165811nat,
    ) == 16208900380737693084919495127334387981393726419856888799917914180988844123039nat);
}

proof fn lemma_frob_root_3()
    ensures
        mul2(frob12_c1(3), frob12_c1(3)) == frob6_c1(3),
{
    reveal(mul2);
    reveal(fmul);
    reveal(fadd);
    reveal(fsub);
    reveal(modulus);
    assert(fmul(
        11697423496358154304825782922584725312912383441159505038794027105778954184319nat,
        11697423496358154304825782922584725312912383441159505038794027105778954184319nat,
    ) == 1886000440959926888216847593356929119504536796908597885886690959658209672630nat);
    assert(fmul(
        303847389135065887422783454877609941456349188919719272345083954437860409601nat,
        303847389135065887422783454877609941456349188919719272345083954437860409601nat,
    ) == 20002242430879348334029558151900345969191774360389225776802346934987016535952nat);
    assert(fmul(
        11697423496358154304825782922584725312912383441159505038794027105778954184319nat,
        303847389135065887422783454877609941456349188919719272345083954437860409601nat,
    ) == 1118297747983622594140850624101590897560534451302930613927630568910472004463nat);
    assert(fmul(
        303847389135065887422783454877609941456349188919719272345083954437860409601nat,
        11697423496358154304825782922584725312912383441159505038794027105778954184319nat,
    ) == 1118297747983622594140850624101590897560534451302930613927630568910472004463nat);
    assert(fsub(
        1886000440959926888216847593356929119504536796908597885886690959658209672630nat,
        20002242430879348334029558151900345969191774360389225776802346934987016535952nat,
    ) == 3772000881919853776433695186713858239009073593817195771773381919316419345261nat);
    assert(fadd(
        1118297747983622594140850624101590897560534451302930613927630568910472004463nat,
        1118297747983622594140850624101590897560534451302930613927630568910472004463nat,
    ) == 2236595495967245188281701248203181795121068902605861227855261137820944008926nat);
}

proof fn lemma_frob_cube_3()
    ensures
        mul2(
            frob6_c1(3),
            frob6_c2(3),
        ) == ext2(
            7474034151359752514913406839843947591262155029321208079942598305488613827322nat,
            1601578746719946967481444322823703055270461791997401731416271065461845820140nat,
        ),
{
    reveal(mul2);
    reveal(fmul);
    reveal(fadd);
    reveal(fsub);
    reveal(modulus);
    assert(fmul(
        3772000881919853776433695186713858239009073593817195771773381919316419345261nat,
        5324479202449903542726783395506214481928257762400643279780343368557297135718nat,
    ) == 16567138952559440756796753885907540459483769890218113757202509059725129690583nat);
    assert(fmul(
        2236595495967245188281701248203181795121068902605861227855261137820944008926nat,
        16208900380737693084919495127334387981393726419856888799917914180988844123039nat,
    ) == 9093104801199688241883347046063592868221614860896905677259910754236515863261nat);
    assert(fmul(
        3772000881919853776433695186713858239009073593817195771773381919316419345261nat,
        16208900380737693084919495127334387981393726419856888799917914180988844123039nat,
    ) == 1919087121343596077881572785513442425195765347301631479635766101641394914533nat);
    assert(fmul(
        2236595495967245188281701248203181795121068902605861227855261137820944008926nat,
        5324479202449903542726783395506214481928257762400643279780343368557297135718nat,
    ) == 21570734497215626111846277282567535718771007601993593914469542858465677114190nat);
    assert(fsub(
        16567138952559440756796753885907540459483769890218113757202509059725129690583nat,
        9093104801199688241883347046063592868221614860896905677259910754236515863261nat,
    ) == 7474034151359752514913406839843947591262155029321208079942598305488613827322nat);
    assert(fadd(
        1919087121343596077881572785513442425195765347301631479635766101641394914533nat,
        21570734497215626111846277282567535718771007601993593914469542858465677114190nat,
    ) == 1601578746719946967481444322823703055270461791997401731416271065461845820140nat);
}

proof fn lemma_frob_xi_3()
    ensures
        mul2(
            ext2(
                7474034151359752514913406839843947591262155029321208079942598305488613827322nat,
                1601578746719946967481444322823703055270461791997401731416271065461845820140nat,
            ),
            xi(),
        ) == ext2(
            9nat,
            21888242871839275222246405745257275088696311157297823662689037894645226208582nat,
        ),
{
    reveal(mul2);
    reveal(fmul);
    reveal(fadd);
    reveal(fsub);
    reveal(modulus);
    assert(fmul(
        7474034151359752514913406839843947591262155029321208079942598305488613827322nat,
        9nat,
    ) == 1601578746719946967481444322823703055270461791997401731416271065461845820149nat);
    assert(fmul(
        1601578746719946967481444322823703055270461791997401731416271065461845820140nat,
        1nat,
    ) == 1601578746719946967481444322823703055270461791997401731416271065461845820140nat);
    assert(fmul(
        7474034151359752514913406839843947591262155029321208079942598305488613827322nat,
        1nat,
    ) == 7474034151359752514913406839843947591262155029321208079942598305488613827322nat);
    assert(fmul(
        1601578746719946967481444322823703055270461791997401731416271065461845820140nat,
        9nat,
    ) == 14414208720479522707332998905413327497434156127976615582746439589156612381260nat);
    assert(fsub(
        1601578746719946967481444322823703055270461791997401731416271065461845820149nat,
        1601578746719946967481444322823703055270461791997401731416271065461845820140nat,
    ) == 9nat);
    assert(fadd(
        7474034151359752514913406839843947591262155029321208079942598305488613827322nat,
        14414208720479522707332998905413327497434156127976615582746439589156612381260nat,
    ) == 21888242871839275222246405745257275088696311157297823662689037894645226208582nat);
}

pub proof fn lemma_root_product_1()
    ensures
        mul2(
            frob6_c1(2),
            frob12_c1(2),
        ) == ext2(
            21888242871839275222246405745257275088696311157297823662689037894645226208582nat,
            0nat,
        ),
{
    reveal(mul2);
    reveal(fmul);
    reveal(fadd);
    reveal(fsub);
    reveal(modulus);
    assert(fmul(
        21888242871839275220042445260109153167277707414472061641714758635765020556616nat,
        21888242871839275220042445260109153167277707414472061641714758635765020556617nat,
    ) == 21888242871839275222246405745257275088696311157297823662689037894645226208582nat);
    assert(fmul(0nat, 0nat) == 0nat);
    assert(fmul(
        21888242871839275220042445260109153167277707414472061641714758635765020556616nat,
        0nat,
    ) == 0nat);
    assert(fmul(
        0nat,
        21888242871839275220042445260109153167277707414472061641714758635765020556617nat,
    ) == 0nat);
    assert(fsub(
        21888242871839275222246405745257275088696311157297823662689037894645226208582nat,
        0nat,
    ) == 21888242871839275222246405745257275088696311157297823662689037894645226208582nat);
    assert(fadd(0nat, 0nat) == 0nat);
}

pub proof fn lemma_root_product_2()
    ensures
        mul2(
            frob6_c2(2),
            frob12_c1(2),
        ) == ext2(
            2203960485148121921418603742825762020974279258880205651967nat,
            0nat,
        ),
{
    reveal(mul2);
    reveal(fmul);
    reveal(fadd);
    reveal(fsub);
    reveal(modulus);
    assert(fmul(
        2203960485148121921418603742825762020974279258880205651966nat,
        21888242871839275220042445260109153167277707414472061641714758635765020556617nat,
    ) == 2203960485148121921418603742825762020974279258880205651967nat);
    assert(fmul(0nat, 0nat) == 0nat);
    assert(fmul(2203960485148121921418603742825762020974279258880205651966nat, 0nat) == 0nat);
    assert(fmul(
        0nat,
        21888242871839275220042445260109153167277707414472061641714758635765020556617nat,
    ) == 0nat);
    assert(fsub(
        2203960485148121921418603742825762020974279258880205651967nat,
        0nat,
    ) == 2203960485148121921418603742825762020974279258880205651967nat);
    assert(fadd(0nat, 0nat) == 0nat);
}

pub proof fn lemma_root_sum()
    ensures
        add2(
            frob12_c1(2),
            ext2(
                2203960485148121921418603742825762020974279258880205651967nat,
                0nat,
            ),
        ) == ext2(1nat, 0nat),
{
    reveal(add2);
    reveal(fadd);
    reveal(modulus);
    assert(fadd(
        21888242871839275220042445260109153167277707414472061641714758635765020556617nat,
        2203960485148121921418603742825762020974279258880205651967nat,
    ) == 1nat);
    assert(fadd(0nat, 0nat) == 0nat);
}

proof fn lemma_twist_square()
    ensures
        sqr2(twist_q_y()) == ext2(
            7474034151359752514913406839843947591262155029321208079942598305488613827322nat,
            1601578746719946967481444322823703055270461791997401731416271065461845820140nat,
        ),
{
    reveal(mul2);
    reveal(fmul);
    reveal(fadd);
    reveal(fsub);
    reveal(modulus);
    assert(fmul(
        2821565182194536844548159561693502659359617185244120367078079554186484126554nat,
        2821565182194536844548159561693502659359617185244120367078079554186484126554nat,
    ) == 14681138511599513868579906292550611339979233093309515871315818100066920017952nat);
    assert(fmul(
        3505843767911556378687030309984248845540243509899259641013678093033130930403nat,
        3505843767911556378687030309984248845540243509899259641013678093033130930403nat,
    ) == 7207104360239761353666499452706663748717078063988307791373219794578306190630nat);
    assert(fmul(
        2821565182194536844548159561693502659359617185244120367078079554186484126554nat,
        3505843767911556378687030309984248845540243509899259641013678093033130930403nat,
    ) == 800789373359973483740722161411851527635230895998700865708135532730922910070nat);
    assert(fmul(
        3505843767911556378687030309984248845540243509899259641013678093033130930403nat,
        2821565182194536844548159561693502659359617185244120367078079554186484126554nat,
    ) == 800789373359973483740722161411851527635230895998700865708135532730922910070nat);
    assert(fsub(
        14681138511599513868579906292550611339979233093309515871315818100066920017952nat,
        7207104360239761353666499452706663748717078063988307791373219794578306190630nat,
    ) == 7474034151359752514913406839843947591262155029321208079942598305488613827322nat);
    assert(fadd(
        800789373359973483740722161411851527635230895998700865708135532730922910070nat,
        800789373359973483740722161411851527635230895998700865708135532730922910070nat,
    ) == 1601578746719946967481444322823703055270461791997401731416271065461845820140nat);
}

proof fn lemma_twist_coefficient()
    ensures
        mul2(
            ext2(
                19485874751759354771024239261021720505790618469301721065564631296452457478373nat,
                21621313080719284060999498358119991246151234191964923374119659383734918571893nat,
            ),
            ext2(
                7474034151359752514913406839843947591262155029321208079942598305488613827322nat,
                1601578746719946967481444322823703055270461791997401731416271065461845820140nat,
            ),
        ) == coeff_b2(),
{
    reveal(mul2);
    reveal(fmul);
    reveal(fadd);
    reveal(fsub);
    reveal(modulus);
    assert(fmul(
        19485874751759354771024239261021720505790618469301721065564631296452457478373nat,
        7474034151359752514913406839843947591262155029321208079942598305488613827322nat,
    ) == 20078328678391530275255180047106911473390667343577182681657642137741189062246nat);
    assert(fmul(
        21621313080719284060999498358119991246151234191964923374119659383734918571893nat,
        1601578746719946967481444322823703055270461791997401731416271065461845820140nat,
    ) == 592453926632175504230940786085190967600048874275461616093010841288731583873nat);
    assert(fmul(
        19485874751759354771024239261021720505790618469301721065564631296452457478373nat,
        1601578746719946967481444322823703055270461791997401731416271065461845820140nat,
    ) == 5332085339689579538078467074766718708400439868479154544837097571598584254857nat);
    assert(fmul(
        21621313080719284060999498358119991246151234191964923374119659383734918571893nat,
        7474034151359752514913406839843947591262155029321208079942598305488613827322nat,
    ) == 16823087323269686845414846057627840222840948254151569406421318833956949590416nat);
    assert(fsub(
        20078328678391530275255180047106911473390667343577182681657642137741189062246nat,
        592453926632175504230940786085190967600048874275461616093010841288731583873nat,
    ) == 19485874751759354771024239261021720505790618469301721065564631296452457478373nat);
    assert(fadd(
        5332085339689579538078467074766718708400439868479154544837097571598584254857nat,
        16823087323269686845414846057627840222840948254151569406421318833956949590416nat,
    ) == 266929791119991161246907387137283842545076965332900288569378510910307636690nat);
}

/// What the constants of the Frobenius map on the twist are to each other and
/// to the twist's own.
pub proof fn lemma_twist_constants()
    ensures
        mul2(sqr2(twist_q_x()), twist_q_x()) == sqr2(twist_q_y()),
        mul2(frob2(coeff_b2(), 1), sqr2(twist_q_y())) == coeff_b2(),
{
    lemma_frob_square_1();
    lemma_frob_cube_1();
    lemma_mul2_commutes(frob6_c1(1), frob6_c2(1));
    lemma_twist_square();
    lemma_twist_coefficient();
    assert(frob2(coeff_b2(), 1) == ext2(
        19485874751759354771024239261021720505790618469301721065564631296452457478373nat,
        21621313080719284060999498358119991246151234191964923374119659383734918571893nat,
    )) by {
        reveal(frob2);
        reveal(fsub);
        reveal(modulus);
    }
}

} // verus!
