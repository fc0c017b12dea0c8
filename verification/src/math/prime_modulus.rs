//! The modulus of the base field is a prime, and what follows: each element but
//! zero has an inverse.
//!
//! Each prime is shown by an element whose order is a smaller prime or the product
//! of two, down to primes that trial division shows. The powers of the element are
//! given by the hexadecimal digits of the exponent, highest first.

use crate::math::field::{
    finv, fmul, is_inverse, lemma_constants, lemma_finv_unique, lemma_fmul_associates,
    lemma_fmul_commutes, lemma_fmul_one, lemma_fmul_zero, modulus,
};
use crate::math::prime::{
    is_prime, leaves, lemma_certificate, lemma_inverse, lemma_leaves_digit, lemma_leaves_itself,
    lemma_leaves_power, lemma_leaves_product, lemma_leaves_zero, lemma_small_prime,
};
use vstd::prelude::*;

verus! {

proof fn lemma_prime_127()
    ensures
        is_prime(127),
{
    lemma_small_prime(7);
    lemma_small_prime(3);
    lemma_leaves_itself(127, 94);
    lemma_leaves_product(127, 94, 1, 1, 94, 94, 73);
    lemma_leaves_product(127, 94, 2, 1, 73, 94, 4);
    lemma_leaves_product(127, 94, 3, 1, 4, 94, 122);
    lemma_leaves_product(127, 94, 4, 1, 122, 94, 38);
    lemma_leaves_product(127, 94, 5, 1, 38, 94, 16);
    lemma_leaves_product(127, 94, 6, 1, 16, 94, 107);
    lemma_leaves_itself(127, 107);
    lemma_leaves_product(127, 107, 1, 1, 107, 107, 19);
    lemma_leaves_product(127, 107, 2, 1, 19, 107, 1);
    lemma_leaves_power(127, 94, 7, 3, 107, 1);
    lemma_certificate(127, 94, 7, 3, 4, 107, 85, 6);
}

proof fn lemma_prime_3557()
    ensures
        is_prime(3557),
{
    lemma_prime_127();
    lemma_leaves_itself(3557, 2894);
    lemma_leaves_product(3557, 2894, 1, 1, 2894, 2894, 2058);
    lemma_leaves_product(3557, 2894, 2, 1, 2058, 2894, 1434);
    lemma_leaves_product(3557, 2894, 3, 1, 1434, 2894, 2534);
    lemma_leaves_product(3557, 2894, 4, 1, 2534, 2894, 2419);
    lemma_leaves_product(3557, 2894, 5, 1, 2419, 2894, 410);
    lemma_leaves_product(3557, 2894, 6, 1, 410, 2894, 2059);
    lemma_leaves_product(3557, 2894, 7, 1, 2059, 2894, 771);
    lemma_leaves_product(3557, 2894, 8, 1, 771, 2894, 1035);
    lemma_leaves_product(3557, 2894, 9, 1, 1035, 2894, 296);
    lemma_leaves_product(3557, 2894, 10, 1, 296, 2894, 2944);
    lemma_leaves_product(3557, 2894, 11, 1, 2944, 2894, 921);
    lemma_leaves_product(3557, 2894, 12, 1, 921, 2894, 1181);
    lemma_leaves_product(3557, 2894, 13, 1, 1181, 2894, 3094);
    lemma_leaves_product(3557, 2894, 14, 1, 3094, 2894, 1067);
    lemma_leaves_digit(3557, 2894, 7, 15, 1067, 2059, 3094, 949, 680, 3547, 1);
    lemma_certificate(3557, 2894, 127, 1, 2894, 0, 1741, 0);
}

proof fn lemma_prime_911()
    ensures
        is_prime(911),
{
    lemma_small_prime(13);
    lemma_small_prime(7);
    lemma_leaves_itself(911, 113);
    lemma_leaves_product(911, 113, 1, 1, 113, 113, 15);
    lemma_leaves_product(911, 113, 2, 1, 15, 113, 784);
    lemma_leaves_product(911, 113, 3, 1, 784, 113, 225);
    lemma_leaves_product(911, 113, 4, 1, 225, 113, 828);
    lemma_leaves_product(911, 113, 5, 1, 828, 113, 642);
    lemma_leaves_product(911, 113, 6, 1, 642, 113, 577);
    lemma_leaves_product(911, 113, 7, 1, 577, 113, 520);
    lemma_leaves_product(911, 113, 8, 1, 520, 113, 456);
    lemma_leaves_product(911, 113, 9, 1, 456, 113, 512);
    lemma_leaves_product(911, 113, 10, 1, 512, 113, 463);
    lemma_leaves_product(911, 113, 11, 1, 463, 113, 392);
    lemma_leaves_product(911, 113, 12, 1, 392, 113, 568);
    lemma_leaves_itself(911, 568);
    lemma_leaves_product(911, 568, 1, 1, 568, 568, 130);
    lemma_leaves_product(911, 568, 2, 1, 130, 568, 49);
    lemma_leaves_product(911, 568, 3, 1, 49, 568, 502);
    lemma_leaves_product(911, 568, 4, 1, 502, 568, 904);
    lemma_leaves_product(911, 568, 5, 1, 904, 568, 579);
    lemma_leaves_product(911, 568, 6, 1, 579, 568, 1);
    lemma_leaves_power(911, 113, 13, 7, 568, 1);
    lemma_certificate(911, 113, 13, 7, 577, 568, 533, 527);
}

proof fn lemma_prime_1263766531()
    ensures
        is_prime(1263766531),
{
    lemma_prime_3557();
    lemma_prime_911();
    lemma_leaves_itself(1263766531, 11725631);
    lemma_leaves_product(1263766531, 11725631, 1, 1, 11725631, 11725631, 206374547);
    lemma_leaves_product(1263766531, 11725631, 2, 1, 206374547, 11725631, 258456578);
    lemma_leaves_product(1263766531, 11725631, 3, 1, 258456578, 11725631, 1243618416);
    lemma_leaves_product(1263766531, 11725631, 4, 1, 1243618416, 11725631, 417236106);
    lemma_leaves_product(1263766531, 11725631, 5, 1, 417236106, 11725631, 435699136);
    lemma_leaves_product(1263766531, 11725631, 6, 1, 435699136, 11725631, 323261580);
    lemma_leaves_product(1263766531, 11725631, 7, 1, 323261580, 11725631, 716731936);
    lemma_leaves_product(1263766531, 11725631, 8, 1, 716731936, 11725631, 840177508);
    lemma_leaves_product(1263766531, 11725631, 9, 1, 840177508, 11725631, 321955032);
    lemma_leaves_product(1263766531, 11725631, 10, 1, 321955032, 11725631, 1258655461);
    lemma_leaves_product(1263766531, 11725631, 11, 1, 1258655461, 11725631, 1079364443);
    lemma_leaves_product(1263766531, 11725631, 12, 1, 1079364443, 11725631, 396564674);
    lemma_leaves_product(1263766531, 11725631, 13, 1, 396564674, 11725631, 217405220);
    lemma_leaves_product(1263766531, 11725631, 14, 1, 217405220, 11725631, 410354515);
    lemma_leaves_digit(
        1263766531, 11725631, 3, 8, 716731936, 258456578, 435699136, 1079364443, 658372143,
        76409005, 1199039665,
    );
    lemma_leaves_digit(
        1263766531, 11725631, 56, 15, 410354515, 1199039665, 413303023, 930879532, 383699046,
        153830887, 142661317,
    );
    lemma_leaves_digit(
        1263766531, 11725631, 13, 14, 217405220, 396564674, 75166143, 220491067, 769543833,
        274712489, 1134685748,
    );
    lemma_leaves_digit(
        1263766531, 11725631, 222, 5, 417236106, 1134685748, 531860002, 318875449, 158873164,
        306351323, 663035740,
    );
    lemma_leaves_itself(1263766531, 663035740);
    lemma_leaves_product(1263766531, 663035740, 1, 1, 663035740, 663035740, 333863139);
    lemma_leaves_product(1263766531, 663035740, 2, 1, 333863139, 663035740, 228959538);
    lemma_leaves_product(1263766531, 663035740, 3, 1, 228959538, 663035740, 836174835);
    lemma_leaves_product(1263766531, 663035740, 4, 1, 836174835, 663035740, 885207567);
    lemma_leaves_product(1263766531, 663035740, 5, 1, 885207567, 663035740, 1224047290);
    lemma_leaves_product(1263766531, 663035740, 6, 1, 1224047290, 663035740, 536206980);
    lemma_leaves_product(1263766531, 663035740, 7, 1, 536206980, 663035740, 194482671);
    lemma_leaves_product(1263766531, 663035740, 8, 1, 194482671, 663035740, 273468210);
    lemma_leaves_product(1263766531, 663035740, 9, 1, 273468210, 663035740, 754765208);
    lemma_leaves_product(1263766531, 663035740, 10, 1, 754765208, 663035740, 433364718);
    lemma_leaves_product(1263766531, 663035740, 11, 1, 433364718, 663035740, 211708355);
    lemma_leaves_product(1263766531, 663035740, 12, 1, 211708355, 663035740, 1146863517);
    lemma_leaves_product(1263766531, 663035740, 13, 1, 1146863517, 663035740, 597572115);
    lemma_leaves_product(1263766531, 663035740, 14, 1, 597572115, 663035740, 1009762883);
    lemma_leaves_digit(
        1263766531, 663035740, 3, 8, 194482671, 228959538, 1224047290, 211708355, 993759306,
        775311073, 1101864577,
    );
    lemma_leaves_digit(
        1263766531, 663035740, 56, 15, 1009762883, 1101864577, 1078529832, 889313935, 424906405,
        367101645, 1,
    );
    lemma_leaves_power(1263766531, 11725631, 3557, 911, 663035740, 1);
    lemma_certificate(1263766531, 11725631, 3557, 911, 142661317, 663035740, 1084735757, 979652892);
}

proof fn lemma_prime_35385462869()
    ensures
        is_prime(35385462869int),
{
    lemma_prime_1263766531();
    lemma_leaves_itself(35385462869int, 268435456);
    lemma_leaves_zero(35385462869int, 268435456);
    lemma_leaves_product(35385462869int, 268435456, 1, 1, 268435456, 268435456, 17484548227int);
    lemma_leaves_product(
        35385462869int, 268435456, 2, 1, 17484548227int, 268435456, 11875726414int,
    );
    lemma_leaves_product(
        35385462869int, 268435456, 3, 1, 11875726414int, 268435456, 17960282532int,
    );
    lemma_leaves_product(
        35385462869int, 268435456, 4, 1, 17960282532int, 268435456, 25377721372int,
    );
    lemma_leaves_product(
        35385462869int, 268435456, 5, 1, 25377721372int, 268435456, 18747894613int,
    );
    lemma_leaves_product(
        35385462869int, 268435456, 6, 1, 18747894613int, 268435456, 23741906313int,
    );
    lemma_leaves_product(
        35385462869int, 268435456, 7, 1, 23741906313int, 268435456, 28034302204int,
    );
    lemma_leaves_product(
        35385462869int, 268435456, 8, 1, 28034302204int, 268435456, 32653820787int,
    );
    lemma_leaves_product(35385462869int, 268435456, 9, 1, 32653820787int, 268435456, 4718334068int);
    lemma_leaves_product(35385462869int, 268435456, 10, 1, 4718334068int, 268435456, 7320878268int);
    lemma_leaves_product(
        35385462869int, 268435456, 11, 1, 7320878268int, 268435456, 23756292206int,
    );
    lemma_leaves_digit(
        35385462869int, 268435456, 4, 11, 7320878268int, 17960282532int, 28034302204int,
        3521627533int, 8039689766int, 14331006594int, 20563541337int,
    );
    lemma_leaves_digit(
        35385462869int, 268435456, 75, 5, 25377721372int, 20563541337int, 27896324445int,
        26104818296int, 18863312885int, 27099609880int, 7407085403int,
    );
    lemma_leaves_digit(
        35385462869int, 268435456, 1205, 3, 11875726414int, 7407085403int, 24074500566int,
        17189465050int, 3533335321int, 31562176503int, 12871178626int,
    );
    lemma_leaves_digit(
        35385462869int, 268435456, 19283, 8, 28034302204int, 12871178626int, 1624948893,
        17989078336int, 30775394466int, 26678158993int, 30174854563int,
    );
    lemma_leaves_digit(
        35385462869int, 268435456, 308536, 12, 23756292206int, 30174854563int, 5126960952int,
        35163189209int, 7432006241int, 13894960021int, 15661835382int,
    );
    lemma_leaves_digit(
        35385462869int, 268435456, 4936588, 0, 1, 15661835382int, 14982731099int, 16258321735int,
        20692369320int, 12050238540int, 12050238540int,
    );
    lemma_leaves_digit(
        35385462869int, 268435456, 78985408, 3, 11875726414int, 12050238540int, 33651199176int,
        19855063968int, 25974337068int, 12169776002int, 1,
    );
    lemma_certificate(35385462869int, 268435456, 1263766531, 1, 268435456, 0, 30792025501int, 0);
}

proof fn lemma_prime_2480874801745591()
    ensures
        is_prime(2480874801745591int),
{
    lemma_prime_35385462869();
    lemma_leaves_itself(2480874801745591int, 1241451147209469int);
    lemma_leaves_zero(2480874801745591int, 1241451147209469int);
    lemma_leaves_product(
        2480874801745591int, 1241451147209469int, 1, 1, 1241451147209469int, 1241451147209469int,
        1633765441600715int,
    );
    lemma_leaves_product(
        2480874801745591int, 1241451147209469int, 2, 1, 1633765441600715int, 1241451147209469int,
        810662905177125int,
    );
    lemma_leaves_product(
        2480874801745591int, 1241451147209469int, 3, 1, 810662905177125int, 1241451147209469int,
        2154113325363515int,
    );
    lemma_leaves_product(
        2480874801745591int, 1241451147209469int, 4, 1, 2154113325363515int, 1241451147209469int,
        1104405164490183int,
    );
    lemma_leaves_product(
        2480874801745591int, 1241451147209469int, 5, 1, 1104405164490183int, 1241451147209469int,
        1373170834976395int,
    );
    lemma_leaves_product(
        2480874801745591int, 1241451147209469int, 6, 1, 1373170834976395int, 1241451147209469int,
        398835842916925int,
    );
    lemma_leaves_product(
        2480874801745591int, 1241451147209469int, 7, 1, 398835842916925int, 1241451147209469int,
        345831551032394int,
    );
    lemma_leaves_product(
        2480874801745591int, 1241451147209469int, 8, 1, 345831551032394int, 1241451147209469int,
        1601864579623347int,
    );
    lemma_leaves_product(
        2480874801745591int, 1241451147209469int, 9, 1, 1601864579623347int, 1241451147209469int,
        1871724440088523int,
    );
    lemma_leaves_product(
        2480874801745591int, 1241451147209469int, 10, 1, 1871724440088523int, 1241451147209469int,
        1207348651962045int,
    );
    lemma_leaves_product(
        2480874801745591int, 1241451147209469int, 11, 1, 1207348651962045int, 1241451147209469int,
        497185971416069int,
    );
    lemma_leaves_product(
        2480874801745591int, 1241451147209469int, 12, 1, 497185971416069int, 1241451147209469int,
        652682079897515int,
    );
    lemma_leaves_digit(
        2480874801745591int, 1241451147209469int, 8, 3, 810662905177125int, 345831551032394int,
        403545762997309int, 2435369440969797int, 315491554810084int, 1578244621337511int,
        1662619311943725int,
    );
    lemma_leaves_digit(
        2480874801745591int, 1241451147209469int, 131, 13, 652682079897515int, 1662619311943725int,
        97066885742739int, 1655450954657323int, 1254486024087023int, 2414778393435334int,
        264998952921427int,
    );
    lemma_leaves_digit(
        2480874801745591int, 1241451147209469int, 2109, 2, 1633765441600715int, 264998952921427int,
        743197516862068int, 100890906049295int, 2073353689920794int, 1657263726796221int,
        594391149936039int,
    );
    lemma_leaves_digit(
        2480874801745591int, 1241451147209469int, 33746, 3, 810662905177125int, 594391149936039int,
        1656378787136128int, 1509998350462288int, 86652957288920int, 1163597509745195int,
        1669118836527459int,
    );
    lemma_leaves_digit(
        2480874801745591int, 1241451147209469int, 539939, 5, 1104405164490183int,
        1669118836527459int, 776005930686986int, 246044977834378int, 462079298355289int,
        1365141228216713int, 741005289859521int,
    );
    lemma_leaves_digit(
        2480874801745591int, 1241451147209469int, 8639029, 0, 1, 741005289859521int,
        537551157474666int, 2206187454367331int, 1110409596841158int, 389481352402914int,
        389481352402914int,
    );
    lemma_leaves_digit(
        2480874801745591int, 1241451147209469int, 138224464, 5, 1104405164490183int,
        389481352402914int, 865720144580499int, 1480468043599053int, 1862149878481190int,
        1292012294307083int, 691406231522645int,
    );
    lemma_leaves_digit(
        2480874801745591int, 1241451147209469int, 2211591429nat, 5, 1104405164490183int,
        691406231522645int, 626084555817533int, 548647785588047int, 1287113604895466int,
        344927544745585int, 1,
    );
    lemma_certificate(
        2480874801745591int, 1241451147209469int, 35385462869int, 1, 1241451147209469int, 0,
        60395260069513int, 0,
    );
}

proof fn lemma_prime_2221()
    ensures
        is_prime(2221),
{
    lemma_small_prime(37);
    lemma_small_prime(5);
    lemma_leaves_itself(2221, 1875);
    lemma_leaves_product(2221, 1875, 1, 1, 1875, 1875, 2003);
    lemma_leaves_product(2221, 1875, 2, 1, 2003, 1875, 2135);
    lemma_leaves_product(2221, 1875, 3, 1, 2135, 1875, 883);
    lemma_leaves_product(2221, 1875, 4, 1, 883, 1875, 980);
    lemma_leaves_digit(2221, 1875, 2, 5, 980, 2003, 883, 118, 598, 23, 330);
    lemma_leaves_itself(2221, 330);
    lemma_leaves_product(2221, 330, 1, 1, 330, 330, 71);
    lemma_leaves_product(2221, 330, 2, 1, 71, 330, 1220);
    lemma_leaves_product(2221, 330, 3, 1, 1220, 330, 599);
    lemma_leaves_product(2221, 330, 4, 1, 599, 330, 1);
    lemma_leaves_power(2221, 1875, 37, 5, 330, 1);
    lemma_certificate(2221, 1875, 37, 5, 980, 330, 152, 2194);
}

proof fn lemma_prime_13327()
    ensures
        is_prime(13327),
{
    lemma_prime_2221();
    lemma_leaves_itself(13327, 64);
    lemma_leaves_product(13327, 64, 1, 1, 64, 64, 4096);
    lemma_leaves_product(13327, 64, 2, 1, 4096, 64, 8931);
    lemma_leaves_product(13327, 64, 3, 1, 8931, 64, 11850);
    lemma_leaves_product(13327, 64, 4, 1, 11850, 64, 12088);
    lemma_leaves_product(13327, 64, 5, 1, 12088, 64, 666);
    lemma_leaves_product(13327, 64, 6, 1, 666, 64, 2643);
    lemma_leaves_product(13327, 64, 7, 1, 2643, 64, 9228);
    lemma_leaves_product(13327, 64, 8, 1, 9228, 64, 4204);
    lemma_leaves_product(13327, 64, 9, 1, 4204, 64, 2516);
    lemma_leaves_product(13327, 64, 10, 1, 2516, 64, 1100);
    lemma_leaves_product(13327, 64, 11, 1, 1100, 64, 3765);
    lemma_leaves_product(13327, 64, 12, 1, 3765, 64, 1074);
    lemma_leaves_digit(13327, 64, 8, 10, 2516, 9228, 9781, 6755, 11704, 8710, 4772);
    lemma_leaves_digit(13327, 64, 138, 13, 1074, 4772, 9468, 5622, 8567, 1700, 1);
    lemma_certificate(13327, 64, 2221, 1, 64, 0, 10577, 0);
}

proof fn lemma_prime_173171039()
    ensures
        is_prime(173171039),
{
    lemma_prime_13327();
    lemma_leaves_itself(173171039, 16359965);
    lemma_leaves_zero(173171039, 16359965);
    lemma_leaves_product(173171039, 16359965, 1, 1, 16359965, 16359965, 145711917);
    lemma_leaves_product(173171039, 16359965, 2, 1, 145711917, 16359965, 163773847);
    lemma_leaves_product(173171039, 16359965, 3, 1, 163773847, 16359965, 52785140);
    lemma_leaves_product(173171039, 16359965, 4, 1, 52785140, 16359965, 112963343);
    lemma_leaves_product(173171039, 16359965, 5, 1, 112963343, 16359965, 31515126);
    lemma_leaves_product(173171039, 16359965, 6, 1, 31515126, 16359965, 67810954);
    lemma_leaves_product(173171039, 16359965, 7, 1, 67810954, 16359965, 72766105);
    lemma_leaves_product(173171039, 16359965, 8, 1, 72766105, 16359965, 130721867);
    lemma_leaves_product(173171039, 16359965, 9, 1, 130721867, 16359965, 156818564);
    lemma_leaves_product(173171039, 16359965, 10, 1, 156818564, 16359965, 131672399);
    lemma_leaves_product(173171039, 16359965, 11, 1, 131672399, 16359965, 67767744);
    lemma_leaves_product(173171039, 16359965, 12, 1, 67767744, 16359965, 42859653);
    lemma_leaves_product(173171039, 16359965, 13, 1, 42859653, 16359965, 71424259);
    lemma_leaves_product(173171039, 16359965, 14, 1, 71424259, 16359965, 123398429);
    lemma_leaves_digit(
        173171039, 16359965, 3, 4, 52785140, 163773847, 31515126, 67767744, 92133049, 35650245,
        75555791,
    );
    lemma_leaves_digit(
        173171039, 16359965, 52, 0, 1, 75555791, 47955465, 159565832, 172951983, 17153333,
        17153333,
    );
    lemma_leaves_digit(
        173171039, 16359965, 832, 15, 123398429, 17153333, 15762560, 110522116, 68819612, 89094590,
        1,
    );
    lemma_certificate(173171039, 16359965, 13327, 1, 16359965, 0, 35859620, 0);
}

/// The largest prime factor of what precedes the modulus.
proof fn lemma_prime_factor()
    ensures
        is_prime(13427688667394608761327070753331941386769int),
{
    lemma_prime_2480874801745591();
    lemma_prime_173171039();
    lemma_leaves_itself(
        13427688667394608761327070753331941386769int, 1514272753416439075498401041775419479098int,
    );
    lemma_leaves_product(
        13427688667394608761327070753331941386769int, 1514272753416439075498401041775419479098int,
        1, 1, 1514272753416439075498401041775419479098int,
        1514272753416439075498401041775419479098int, 5830895031274076398685894519111951554449int,
    );
    lemma_leaves_product(
        13427688667394608761327070753331941386769int, 1514272753416439075498401041775419479098int,
        2, 1, 5830895031274076398685894519111951554449int,
        1514272753416439075498401041775419479098int, 12603119435982809339529488712060942598047int,
    );
    lemma_leaves_product(
        13427688667394608761327070753331941386769int, 1514272753416439075498401041775419479098int,
        3, 1, 12603119435982809339529488712060942598047int,
        1514272753416439075498401041775419479098int, 396110672196323480651083783749861063522int,
    );
    lemma_leaves_product(
        13427688667394608761327070753331941386769int, 1514272753416439075498401041775419479098int,
        4, 1, 396110672196323480651083783749861063522int,
        1514272753416439075498401041775419479098int, 6373730131732107481778487666962950259624int,
    );
    lemma_leaves_product(
        13427688667394608761327070753331941386769int, 1514272753416439075498401041775419479098int,
        5, 1, 6373730131732107481778487666962950259624int,
        1514272753416439075498401041775419479098int, 10052784164346364561175003527541529747830int,
    );
    lemma_leaves_product(
        13427688667394608761327070753331941386769int, 1514272753416439075498401041775419479098int,
        6, 1, 10052784164346364561175003527541529747830int,
        1514272753416439075498401041775419479098int, 10410103283865713338683940193199112544643int,
    );
    lemma_leaves_product(
        13427688667394608761327070753331941386769int, 1514272753416439075498401041775419479098int,
        7, 1, 10410103283865713338683940193199112544643int,
        1514272753416439075498401041775419479098int, 9413674455946964601967572120924784508939int,
    );
    lemma_leaves_product(
        13427688667394608761327070753331941386769int, 1514272753416439075498401041775419479098int,
        8, 1, 9413674455946964601967572120924784508939int,
        1514272753416439075498401041775419479098int, 8534201336067581916884401279891020469952int,
    );
    lemma_leaves_product(
        13427688667394608761327070753331941386769int, 1514272753416439075498401041775419479098int,
        9, 1, 8534201336067581916884401279891020469952int,
        1514272753416439075498401041775419479098int, 4148140567112394932898229187570880593020int,
    );
    lemma_leaves_product(
        13427688667394608761327070753331941386769int, 1514272753416439075498401041775419479098int,
        10, 1, 4148140567112394932898229187570880593020int,
        1514272753416439075498401041775419479098int, 2503260748292808583531132061427488642618int,
    );
    lemma_leaves_product(
        13427688667394608761327070753331941386769int, 1514272753416439075498401041775419479098int,
        11, 1, 2503260748292808583531132061427488642618int,
        1514272753416439075498401041775419479098int, 1718870126422970181614996311463043348293int,
    );
    lemma_leaves_product(
        13427688667394608761327070753331941386769int, 1514272753416439075498401041775419479098int,
        12, 1, 1718870126422970181614996311463043348293int,
        1514272753416439075498401041775419479098int, 10387193958568493186306367655610868604499int,
    );
    lemma_leaves_product(
        13427688667394608761327070753331941386769int, 1514272753416439075498401041775419479098int,
        13, 1, 10387193958568493186306367655610868604499int,
        1514272753416439075498401041775419479098int, 777044984420547887396485353580803495854int,
    );
    lemma_leaves_product(
        13427688667394608761327070753331941386769int, 1514272753416439075498401041775419479098int,
        14, 1, 777044984420547887396485353580803495854int,
        1514272753416439075498401041775419479098int, 6972564234969786054697735191247388850238int,
    );
    lemma_leaves_digit(
        13427688667394608761327070753331941386769int, 1514272753416439075498401041775419479098int,
        10, 5, 6373730131732107481778487666962950259624int,
        4148140567112394932898229187570880593020int, 94344213696031784559250719681470993965int,
        8439375720020512406074682806405445158768int, 8639556107793846758979169901724558385352int,
        13301506294948070415815864187931078422914int, 7604883626144598923995204902837255406416int,
    );
    lemma_leaves_digit(
        13427688667394608761327070753331941386769int, 1514272753416439075498401041775419479098int,
        165, 2, 5830895031274076398685894519111951554449int,
        7604883626144598923995204902837255406416int, 12334054849211999607601928264956201323206int,
        5117658443901386853126760871594931016094int, 4421045969664665507554462902952699492860int,
        11216772179312355318962827564092452761491int, 10652286601959882409447407534747068979150int,
    );
    lemma_leaves_digit(
        13427688667394608761327070753331941386769int, 1514272753416439075498401041775419479098int,
        2642, 6, 10052784164346364561175003527541529747830int,
        10652286601959882409447407534747068979150int, 1513240137825253187361051510362351629958int,
        157234634489240628266747542364495404771int, 6999081202589121016229619515663972470571int,
        11815084831689305229551696150008960919624int, 8526215443290823120987118279006901427573int,
    );
    lemma_leaves_digit(
        13427688667394608761327070753331941386769int, 1514272753416439075498401041775419479098int,
        42278, 1, 1514272753416439075498401041775419479098int,
        8526215443290823120987118279006901427573int, 4823868114278732508976591889972336844432int,
        1533307114989063194689973694794116265306int, 7005468695033447609290613898789791388170int,
        10762936419209211432306226111217354252137int, 12041411906972112398629039594984462605906int,
    );
    lemma_leaves_digit(
        13427688667394608761327070753331941386769int, 1514272753416439075498401041775419479098int,
        676449, 5, 6373730131732107481778487666962950259624int,
        12041411906972112398629039594984462605906int, 8232168744799702421717157987087981413985int,
        7033496603255491511629997420874632251827int, 3893117713504559254939418286010544101174int,
        11020502726227326759166603730262685146428int, 9349503537263036858384091952727340114745int,
    );
    lemma_leaves_digit(
        13427688667394608761327070753331941386769int, 1514272753416439075498401041775419479098int,
        10823189, 15, 6972564234969786054697735191247388850238int,
        9349503537263036858384091952727340114745int, 5389015127112222651423439008746519945326int,
        11550704310242584084878651612201437155023int, 8908728815923054409281164932353562652673int,
        4679540203060431054219852501742672497525int, 11079643483354044030555362120445414701546int,
    );
    lemma_leaves_zero(
        13427688667394608761327070753331941386769int, 1514272753416439075498401041775419479098int,
    );
    lemma_leaves_digit(
        13427688667394608761327070753331941386769int, 1514272753416439075498401041775419479098int,
        8, 13, 10387193958568493186306367655610868604499int,
        9413674455946964601967572120924784508939int, 11341300705291126934393188885754412348643int,
        11912421827715812004509787456648998954384int, 9603419535881461590252731601705728829103int,
        10919492175191316694074637184780264754896int, 2236639810261672998032850288221805166512int,
    );
    lemma_leaves_digit(
        13427688667394608761327070753331941386769int, 1514272753416439075498401041775419479098int,
        141, 0, 1, 2236639810261672998032850288221805166512int,
        12345084637815151267356587453191235208918int, 2942388398594543008724334016554229249799int,
        11333277283015590004359729049434154726193int, 7466541429126996026855835034159364573414int,
        7466541429126996026855835034159364573414int,
    );
    lemma_leaves_digit(
        13427688667394608761327070753331941386769int, 1514272753416439075498401041775419479098int,
        2256, 5, 6373730131732107481778487666962950259624int,
        7466541429126996026855835034159364573414int, 7829826200228885082873107883049885309498int,
        1477045982889477285074406237538318945152int, 9782064687661871329487526641722334365935int,
        5891663538384846948527078027329898121485int, 12812714670272262136016011089158170028069int,
    );
    lemma_leaves_digit(
        13427688667394608761327070753331941386769int, 1514272753416439075498401041775419479098int,
        36101, 7, 10410103283865713338683940193199112544643int,
        12812714670272262136016011089158170028069int, 4301811119762210770760137910365388072658int,
        10419632732486179423512933590453271239578int, 10414394267545914194173005783348426519058int,
        13230671721940876295522294642081150418411int, 1481823960754217163519314603412229888226int,
    );
    lemma_leaves_digit(
        13427688667394608761327070753331941386769int, 1514272753416439075498401041775419479098int,
        577623, 10, 4148140567112394932898229187570880593020int,
        1481823960754217163519314603412229888226int, 507829707507189837722842138992144086022int,
        7925598703209950483341504789215622640387int, 10321916211702758908021936326464848122707int,
        2467252769652190688584648518648085626271int, 10983359111258580937700994637316788561970int,
    );
    lemma_leaves_digit(
        13427688667394608761327070753331941386769int, 1514272753416439075498401041775419479098int,
        9241978, 13, 10387193958568493186306367655610868604499int,
        10983359111258580937700994637316788561970int, 12704153682697518423470547003017487752869int,
        11995715369678921377617936278115625192831int, 4585303533566464161356009783575152810900int,
        4492582043382985440334258665658224948528int, 6202015958491260768207118379363279749758int,
    );
    lemma_leaves_digit(
        13427688667394608761327070753331941386769int, 1514272753416439075498401041775419479098int,
        147871661, 4, 396110672196323480651083783749861063522int,
        6202015958491260768207118379363279749758int, 7856600988077702767912035748277360472413int,
        6369877521139798934722658446207329245343int, 4533150770711776528725774272972362015871int,
        1867648969409929593051783471000336791977int, 10011609788969419906458071204924713461031int,
    );
    lemma_leaves_digit(
        13427688667394608761327070753331941386769int, 1514272753416439075498401041775419479098int,
        2365946580nat, 10, 4148140567112394932898229187570880593020int,
        10011609788969419906458071204924713461031int, 4487829906918574067417405444288459243305int,
        6106692856213411578402764810389173102912int, 4721587700452333489901712034835018121142int,
        12753944611031741456106385261654519925313int, 8220049030525750940897692196554837095883int,
    );
    lemma_leaves_digit(
        13427688667394608761327070753331941386769int, 1514272753416439075498401041775419479098int,
        37855145290nat, 4, 396110672196323480651083783749861063522int,
        8220049030525750940897692196554837095883int, 3736831547784769867281556739745944107306int,
        10424555550525268348653933396823992722309int, 6966416229176193537749046168896332130305int,
        11407923334964509023200637703791409436638int, 10756850056258631626002112613913534524017int,
    );
    lemma_leaves_digit(
        13427688667394608761327070753331941386769int, 1514272753416439075498401041775419479098int,
        605682324644nat, 14, 777044984420547887396485353580803495854int,
        10756850056258631626002112613913534524017int, 71795385243020252878509398516324748858int,
        9664742893918481574372433632226633846332int, 6764834654542846362001358475063797657146int,
        5559330556618644640206301636339699332093int, 9010379414434768031253352814429657906199int,
    );
    lemma_leaves_digit(
        13427688667394608761327070753331941386769int, 1514272753416439075498401041775419479098int,
        9690917194318nat, 11, 2503260748292808583531132061427488642618int,
        9010379414434768031253352814429657906199int, 8262556257089333639849728445013965638002int,
        1786633573986994251025517312623601495733int, 4804565399268057125874698901824501488675int,
        13405203287800854374512061574975967489827int, 8083672727350615007209154531363178723355int,
    );
    lemma_leaves_digit(
        13427688667394608761327070753331941386769int, 1514272753416439075498401041775419479098int,
        155054675109099nat, 7, 10410103283865713338683940193199112544643int,
        8083672727350615007209154531363178723355int, 9941131383202386944190626443665992364399int,
        7570855706325910582778043164761329424982int, 8891740331736870910258236529808707088297int,
        6876128288669799166372793728006941810653int, 9785822746442342713677375315050249518427int,
    );
    lemma_leaves_itself(
        13427688667394608761327070753331941386769int, 9785822746442342713677375315050249518427int,
    );
    lemma_leaves_product(
        13427688667394608761327070753331941386769int, 9785822746442342713677375315050249518427int,
        1, 1, 9785822746442342713677375315050249518427int,
        9785822746442342713677375315050249518427int, 12912131168316894023511570168864347970584int,
    );
    lemma_leaves_product(
        13427688667394608761327070753331941386769int, 9785822746442342713677375315050249518427int,
        2, 1, 12912131168316894023511570168864347970584int,
        9785822746442342713677375315050249518427int, 8496150590332177645655344068565740111639int,
    );
    lemma_leaves_product(
        13427688667394608761327070753331941386769int, 9785822746442342713677375315050249518427int,
        3, 1, 8496150590332177645655344068565740111639int,
        9785822746442342713677375315050249518427int, 773424987450240165278926376699704581767int,
    );
    lemma_leaves_product(
        13427688667394608761327070753331941386769int, 9785822746442342713677375315050249518427int,
        4, 1, 773424987450240165278926376699704581767int,
        9785822746442342713677375315050249518427int, 1540133634197360606467898308728136610845int,
    );
    lemma_leaves_product(
        13427688667394608761327070753331941386769int, 9785822746442342713677375315050249518427int,
        5, 1, 1540133634197360606467898308728136610845int,
        9785822746442342713677375315050249518427int, 5454032836791758916327205596109310887263int,
    );
    lemma_leaves_product(
        13427688667394608761327070753331941386769int, 9785822746442342713677375315050249518427int,
        6, 1, 5454032836791758916327205596109310887263int,
        9785822746442342713677375315050249518427int, 12413473295482775527608079515898796893868int,
    );
    lemma_leaves_product(
        13427688667394608761327070753331941386769int, 9785822746442342713677375315050249518427int,
        7, 1, 12413473295482775527608079515898796893868int,
        9785822746442342713677375315050249518427int, 10159552274981179849951103576477558386864int,
    );
    lemma_leaves_product(
        13427688667394608761327070753331941386769int, 9785822746442342713677375315050249518427int,
        8, 1, 10159552274981179849951103576477558386864int,
        9785822746442342713677375315050249518427int, 2628419812359311741992511312062238720427int,
    );
    lemma_leaves_product(
        13427688667394608761327070753331941386769int, 9785822746442342713677375315050249518427int,
        9, 1, 2628419812359311741992511312062238720427int,
        9785822746442342713677375315050249518427int, 4997776701245533508172006497208246867364int,
    );
    lemma_leaves_product(
        13427688667394608761327070753331941386769int, 9785822746442342713677375315050249518427int,
        10, 1, 4997776701245533508172006497208246867364int,
        9785822746442342713677375315050249518427int, 4788502322944730625419723187734853364322int,
    );
    lemma_leaves_product(
        13427688667394608761327070753331941386769int, 9785822746442342713677375315050249518427int,
        11, 1, 4788502322944730625419723187734853364322int,
        9785822746442342713677375315050249518427int, 2391740479460502133929001243700923323891int,
    );
    lemma_leaves_product(
        13427688667394608761327070753331941386769int, 9785822746442342713677375315050249518427int,
        12, 1, 2391740479460502133929001243700923323891int,
        9785822746442342713677375315050249518427int, 1235978501214842117128176430570139078726int,
    );
    lemma_leaves_product(
        13427688667394608761327070753331941386769int, 9785822746442342713677375315050249518427int,
        13, 1, 1235978501214842117128176430570139078726int,
        9785822746442342713677375315050249518427int, 2232473012789163765577293135851807073329int,
    );
    lemma_leaves_product(
        13427688667394608761327070753331941386769int, 9785822746442342713677375315050249518427int,
        14, 1, 2232473012789163765577293135851807073329int,
        9785822746442342713677375315050249518427int, 7588069688315609634076649332986007253380int,
    );
    lemma_leaves_digit(
        13427688667394608761327070753331941386769int, 9785822746442342713677375315050249518427int,
        10, 5, 1540133634197360606467898308728136610845int,
        4997776701245533508172006497208246867364int, 12070366371306328051604749018681558411727int,
        10083950542671241061164725455204064320600int, 2691167301910546976449250303031952340548int,
        11723292820859835857460745808063084910857int, 8470891850962823413973311336221964514546int,
    );
    lemma_leaves_digit(
        13427688667394608761327070753331941386769int, 9785822746442342713677375315050249518427int,
        165, 2, 12912131168316894023511570168864347970584int,
        8470891850962823413973311336221964514546int, 9961698938050948608697574984532220369867int,
        9814112546625660981245906086080076464145int, 9806700200793781341142211127278765682814int,
        8382021697328894542196443599561151971106int, 538440845535222767753341213422246701530int,
    );
    lemma_leaves_digit(
        13427688667394608761327070753331941386769int, 9785822746442342713677375315050249518427int,
        2642, 6, 5454032836791758916327205596109310887263int,
        538440845535222767753341213422246701530int, 11962914660687738863978643139574719253062int,
        5276595716582572367569119279505047182327int, 5990218948025322909832683661630909984847int,
        3680021948704156530254992168247926049632int, 6619663059734286389794825098725019753746int,
    );
    lemma_leaves_digit(
        13427688667394608761327070753331941386769int, 9785822746442342713677375315050249518427int,
        42278, 1, 9785822746442342713677375315050249518427int,
        6619663059734286389794825098725019753746int, 2777961190215519931721833518163713760523int,
        5381697068471989292729922314982156731568int, 2522509801445077877625514257052703623839int,
        8619191153010031920463005173256144603066int, 6468271329479181881714269671118728489518int,
    );
    lemma_leaves_digit(
        13427688667394608761327070753331941386769int, 9785822746442342713677375315050249518427int,
        676449, 5, 1540133634197360606467898308728136610845int,
        6468271329479181881714269671118728489518int, 8560437908524187557695892193916173940797int,
        4487390206996934008598680241926622257654int, 1950489268604016393856241081903215605993int,
        5608893005808648079680972891180351067299int, 10696809935136249034117650866310016014470int,
    );
    lemma_leaves_digit(
        13427688667394608761327070753331941386769int, 9785822746442342713677375315050249518427int,
        10823189, 15, 7588069688315609634076649332986007253380int,
        10696809935136249034117650866310016014470int, 8155512213986807045757383272713758630798int,
        11745767476067785108529343360178677210967int, 10297775909301779574741959785388696639677int,
        2710681969073267275506905817033404480893int, 1,
    );
    lemma_leaves_power(
        13427688667394608761327070753331941386769int, 1514272753416439075498401041775419479098int,
        2480874801745591nat, 173171039, 9785822746442342713677375315050249518427int, 1,
    );
    lemma_certificate(
        13427688667394608761327070753331941386769int, 1514272753416439075498401041775419479098int,
        2480874801745591int, 173171039, 11079643483354044030555362120445414701546int,
        9785822746442342713677375315050249518427int, 6785926852418085198570490017495330175623int,
        8400704698881656509131354358865537047819int,
    );
}

/// The powers of an element whose order is the largest prime factor of what
/// precedes the modulus.
proof fn lemma_modulus_power()
    ensures
        leaves(
            21888242871839275222246405745257275088696311157297823662689037894645226208583int,
            20520420087326380218354900027015874311863624918437260220194913954166250002289int,
            13427688667394608761327070753331941386769nat,
            1,
        ),
{
    lemma_leaves_itself(
        21888242871839275222246405745257275088696311157297823662689037894645226208583int,
        20520420087326380218354900027015874311863624918437260220194913954166250002289int,
    );
    lemma_leaves_zero(
        21888242871839275222246405745257275088696311157297823662689037894645226208583int,
        20520420087326380218354900027015874311863624918437260220194913954166250002289int,
    );
    lemma_leaves_product(
        21888242871839275222246405745257275088696311157297823662689037894645226208583int,
        20520420087326380218354900027015874311863624918437260220194913954166250002289int, 1, 1,
        20520420087326380218354900027015874311863624918437260220194913954166250002289int,
        20520420087326380218354900027015874311863624918437260220194913954166250002289int,
        1168350874092745625405749664249284140222932432086006564121548311108330430949int,
    );
    lemma_leaves_product(
        21888242871839275222246405745257275088696311157297823662689037894645226208583int,
        20520420087326380218354900027015874311863624918437260220194913954166250002289int, 2, 1,
        1168350874092745625405749664249284140222932432086006564121548311108330430949int,
        20520420087326380218354900027015874311863624918437260220194913954166250002289int,
        13399419931120260899844553312938000796207280194125636406154589001619361367869int,
    );
    lemma_leaves_product(
        21888242871839275222246405745257275088696311157297823662689037894645226208583int,
        20520420087326380218354900027015874311863624918437260220194913954166250002289int, 3, 1,
        13399419931120260899844553312938000796207280194125636406154589001619361367869int,
        20520420087326380218354900027015874311863624918437260220194913954166250002289int,
        12084850875733009551105854211970485156906309794495034472951121415634843666837int,
    );
    lemma_leaves_product(
        21888242871839275222246405745257275088696311157297823662689037894645226208583int,
        20520420087326380218354900027015874311863624918437260220194913954166250002289int, 4, 1,
        12084850875733009551105854211970485156906309794495034472951121415634843666837int,
        20520420087326380218354900027015874311863624918437260220194913954166250002289int,
        8003119166476924916434854973725577586463791011258499367649595432604216480137int,
    );
    lemma_leaves_product(
        21888242871839275222246405745257275088696311157297823662689037894645226208583int,
        20520420087326380218354900027015874311863624918437260220194913954166250002289int, 5, 1,
        8003119166476924916434854973725577586463791011258499367649595432604216480137int,
        20520420087326380218354900027015874311863624918437260220194913954166250002289int,
        12542387463884224962964597149078819456503620970211717547762563009757598457904int,
    );
    lemma_leaves_product(
        21888242871839275222246405745257275088696311157297823662689037894645226208583int,
        20520420087326380218354900027015874311863624918437260220194913954166250002289int, 6, 1,
        12542387463884224962964597149078819456503620970211717547762563009757598457904int,
        20520420087326380218354900027015874311863624918437260220194913954166250002289int,
        10535427477721069952255845748217273277720002558498581323422257046742708666660int,
    );
    lemma_leaves_product(
        21888242871839275222246405745257275088696311157297823662689037894645226208583int,
        20520420087326380218354900027015874311863624918437260220194913954166250002289int, 7, 1,
        10535427477721069952255845748217273277720002558498581323422257046742708666660int,
        20520420087326380218354900027015874311863624918437260220194913954166250002289int,
        1728711361824467244428017976948836031851166774962390661835532357162615018188int,
    );
    lemma_leaves_product(
        21888242871839275222246405745257275088696311157297823662689037894645226208583int,
        20520420087326380218354900027015874311863624918437260220194913954166250002289int, 8, 1,
        1728711361824467244428017976948836031851166774962390661835532357162615018188int,
        20520420087326380218354900027015874311863624918437260220194913954166250002289int,
        1944099738983215340511157305465284169323853253662281453403900640043735484475int,
    );
    lemma_leaves_product(
        21888242871839275222246405745257275088696311157297823662689037894645226208583int,
        20520420087326380218354900027015874311863624918437260220194913954166250002289int, 9, 1,
        1944099738983215340511157305465284169323853253662281453403900640043735484475int,
        20520420087326380218354900027015874311863624918437260220194913954166250002289int,
        7192909857687175186558945518041497841522085770108249448056635874379721417243int,
    );
    lemma_leaves_product(
        21888242871839275222246405745257275088696311157297823662689037894645226208583int,
        20520420087326380218354900027015874311863624918437260220194913954166250002289int, 10, 1,
        7192909857687175186558945518041497841522085770108249448056635874379721417243int,
        20520420087326380218354900027015874311863624918437260220194913954166250002289int,
        12570999299626469632139664901690611732101819984931606782752981849865125979429int,
    );
    lemma_leaves_product(
        21888242871839275222246405745257275088696311157297823662689037894645226208583int,
        20520420087326380218354900027015874311863624918437260220194913954166250002289int, 11, 1,
        12570999299626469632139664901690611732101819984931606782752981849865125979429int,
        20520420087326380218354900027015874311863624918437260220194913954166250002289int,
        16747717312708412324700191204642605626112522078162987557649985510265000117792int,
    );
    lemma_leaves_product(
        21888242871839275222246405745257275088696311157297823662689037894645226208583int,
        20520420087326380218354900027015874311863624918437260220194913954166250002289int, 12, 1,
        16747717312708412324700191204642605626112522078162987557649985510265000117792int,
        20520420087326380218354900027015874311863624918437260220194913954166250002289int,
        5405892420828625776204141083007904921577193329823551315365887467761178501400int,
    );
    lemma_leaves_product(
        21888242871839275222246405745257275088696311157297823662689037894645226208583int,
        20520420087326380218354900027015874311863624918437260220194913954166250002289int, 13, 1,
        5405892420828625776204141083007904921577193329823551315365887467761178501400int,
        20520420087326380218354900027015874311863624918437260220194913954166250002289int,
        21513053072661576222402580380572073324593005825927248513753604067193611667981int,
    );
    lemma_leaves_product(
        21888242871839275222246405745257275088696311157297823662689037894645226208583int,
        20520420087326380218354900027015874311863624918437260220194913954166250002289int, 14, 1,
        21513053072661576222402580380572073324593005825927248513753604067193611667981int,
        20520420087326380218354900027015874311863624918437260220194913954166250002289int,
        17195718475408585819620401284950055199964688991607441767763132964097381280063int,
    );
    lemma_leaves_digit(
        21888242871839275222246405745257275088696311157297823662689037894645226208583int,
        20520420087326380218354900027015874311863624918437260220194913954166250002289int, 2, 7,
        10535427477721069952255845748217273277720002558498581323422257046742708666660int,
        1168350874092745625405749664249284140222932432086006564121548311108330430949int,
        12084850875733009551105854211970485156906309794495034472951121415634843666837int,
        1728711361824467244428017976948836031851166774962390661835532357162615018188int,
        16415310073005049805883694838057556365393379827933459334054893301602383855297int,
        7382887761768804931837694066647039073256022034748007902125905203045751544730int,
        20846724391401744837767268903091488754085576514495268749495906647262146215539int,
    );
    lemma_leaves_digit(
        21888242871839275222246405745257275088696311157297823662689037894645226208583int,
        20520420087326380218354900027015874311863624918437260220194913954166250002289int, 39, 7,
        10535427477721069952255845748217273277720002558498581323422257046742708666660int,
        20846724391401744837767268903091488754085576514495268749495906647262146215539int,
        352097487885586148848495007416804207701158182008040625024147747874011559507int,
        21295925724000722465762284391551415268997489023823679378766583721747433114756int,
        11333305313920551840116634655917491645744883142703092497397258813053965064898int,
        19571716049943070984708551514215160512756716744778080298134872945462278750463int,
        11362048079661685016912077362612320736592260745580003979125142086970704067018int,
    );
    lemma_leaves_digit(
        21888242871839275222246405745257275088696311157297823662689037894645226208583int,
        20520420087326380218354900027015874311863624918437260220194913954166250002289int, 631, 5,
        8003119166476924916434854973725577586463791011258499367649595432604216480137int,
        11362048079661685016912077362612320736592260745580003979125142086970704067018int,
        11563494126660254421990594607155083764770268681978913414181913347425770478200int,
        13751489027580514238977525877790418466672739463836521784870796610277077857928int,
        8441819520687095242446017824447375160450068054759296298713937123206129144164int,
        3117607725433657249080132817675425011535737625523593185545825410086164389044int,
        8700259349505545606454443131906551732443073823376839020539284475833515342623int,
    );
    lemma_leaves_digit(
        21888242871839275222246405745257275088696311157297823662689037894645226208583int,
        20520420087326380218354900027015874311863624918437260220194913954166250002289int, 10101,
        13, 5405892420828625776204141083007904921577193329823551315365887467761178501400int,
        8700259349505545606454443131906551732443073823376839020539284475833515342623int,
        9279150787008645725563532796913990771884670965570465747729998015621081006301int,
        16692997806506408973661016031490069289433078461485325790097589145766812313420int,
        696854754709329135884006072684745050224105093539952235143019468606979977750int,
        3062318331016766679155939525470501293786063042949187115253802685136382088261int,
        10397351369704481530066465699145675313052645251701581862648006485833534365194int,
    );
    lemma_leaves_digit(
        21888242871839275222246405745257275088696311157297823662689037894645226208583int,
        20520420087326380218354900027015874311863624918437260220194913954166250002289int, 161629,
        14, 21513053072661576222402580380572073324593005825927248513753604067193611667981int,
        10397351369704481530066465699145675313052645251701581862648006485833534365194int,
        16299267186611700458381441027114396792188009629462854839018830371421949024611int,
        11347737892801638152748766402693943426236711902020779382232533405045331197691int,
        6466981554294717072117224858734423308839555317895029948774403799863052224091int,
        6673408264028141014767494212796640687934007061970956217692929388196315244047int,
        21401020979764980223770661378921917472077668109764722194139176342466253211212int,
    );
    lemma_leaves_digit(
        21888242871839275222246405745257275088696311157297823662689037894645226208583int,
        20520420087326380218354900027015874311863624918437260220194913954166250002289int, 2586078,
        12, 16747717312708412324700191204642605626112522078162987557649985510265000117792int,
        21401020979764980223770661378921917472077668109764722194139176342466253211212int,
        9586791544135392027690327627539345186009558242081360315810857311716923641597int,
        3773294293980332717527981155607669208195625075525581023852270965535580767774int,
        14335913967680921803489698792385558594184950865725592126649532862157527956930int,
        6970761788334089554792325050608744808963028189034245372170770009534906564457int,
        10348691011700320939498571401698734146090747040917771178168500168520245325736int,
    );
    lemma_leaves_digit(
        21888242871839275222246405745257275088696311157297823662689037894645226208583int,
        20520420087326380218354900027015874311863624918437260220194913954166250002289int, 41377260,
        4, 12084850875733009551105854211970485156906309794495034472951121415634843666837int,
        10348691011700320939498571401698734146090747040917771178168500168520245325736int,
        20659254206715413051784765495862014660589487440258824774427229585718386370884int,
        5471090929630167168197646057370643468116177195695438920401882574688776926916int,
        196434399445274160423132566121771389182956375717292012169767605366988118013int,
        3261163367636155921845191445983893351451498972933379972972577829303044657002int,
        12131517647158159441697630955355587916259969034116491213712492811889998722902int,
    );
    lemma_leaves_digit(
        21888242871839275222246405745257275088696311157297823662689037894645226208583int,
        20520420087326380218354900027015874311863624918437260220194913954166250002289int,
        662036164, 13,
        5405892420828625776204141083007904921577193329823551315365887467761178501400int,
        12131517647158159441697630955355587916259969034116491213712492811889998722902int,
        7897645571827279826486544396629371799762097480545627345238349881144141375557int,
        6193212525371637859558887520756685049918367420600476734859000457517924882013int,
        8114559246089309644110864530267211479838985215815849425892817401242656173385int,
        1574173746803459814464326249410079334920198620004518964358975674988246279975int,
        6327842583942150475080448687104583585543795210673175328600025375382600409079int,
    );
    lemma_leaves_digit(
        21888242871839275222246405745257275088696311157297823662689037894645226208583int,
        20520420087326380218354900027015874311863624918437260220194913954166250002289int,
        10592578637nat, 2,
        1168350874092745625405749664249284140222932432086006564121548311108330430949int,
        6327842583942150475080448687104583585543795210673175328600025375382600409079int,
        16444147774164526778733310478442143560922804446458410462622536617238238676031int,
        14622045483212304825714013966419603806050048637503342372913932376724005975573int,
        5013505802753955058942732858821764863299767652292026782453597517645226913695int,
        18288677862844153574397014964059517111278062702190976287012201318868394901307int,
        4317666812919489792284869824098763249925122675670225004545094909709622101153int,
    );
    lemma_leaves_digit(
        21888242871839275222246405745257275088696311157297823662689037894645226208583int,
        20520420087326380218354900027015874311863624918437260220194913954166250002289int,
        169481258194nat, 15,
        17195718475408585819620401284950055199964688991607441767763132964097381280063int,
        4317666812919489792284869824098763249925122675670225004545094909709622101153int,
        10738199843415713114993631601480973962205494893300275283888216988231141308258int,
        10946713962125632070255327338645188595584683495518313936722329609234252689648int,
        19308955355247114287891598406756656080479960315653660712969677251700391194695int,
        10742965296567186819163022452156186812166562820386325316375815515140241466737int,
        941636264960340975346880186109755379357112928352363780151534818477326471554int,
    );
    lemma_leaves_digit(
        21888242871839275222246405745257275088696311157297823662689037894645226208583int,
        20520420087326380218354900027015874311863624918437260220194913954166250002289int,
        2711700131119nat, 13,
        5405892420828625776204141083007904921577193329823551315365887467761178501400int,
        941636264960340975346880186109755379357112928352363780151534818477326471554int,
        20115202162902065150556826996392249234897318552631364369559872646536522807448int,
        9067189391978219136139136816857163669528302857695332057959771057273713012041int,
        14546242926881843932662857487810557012644502203549510463320483071405640446680int,
        20252892335765189671105569927647923872370453047140756221681204560563923089793int,
        11727516494308984355476307727759310330795768455549215015827479869010104988392int,
    );
    lemma_leaves_digit(
        21888242871839275222246405745257275088696311157297823662689037894645226208583int,
        20520420087326380218354900027015874311863624918437260220194913954166250002289int,
        43387202097917nat, 4,
        12084850875733009551105854211970485156906309794495034472951121415634843666837int,
        11727516494308984355476307727759310330795768455549215015827479869010104988392int,
        18357269385967211988105606976850639121316699017921302311321967371327894828430int,
        1973876352534487507342732723472343035713847827443673414192696246175738990878int,
        14854665748225563820971245400092284343472033117931848744059141259170253904192int,
        5727272824400683921073381371323121688191331125921820352382541960629148228037int,
        16727147622363527911121221398673634113106784052997362773690209404727367266301int,
    );
    lemma_leaves_digit(
        21888242871839275222246405745257275088696311157297823662689037894645226208583int,
        20520420087326380218354900027015874311863624918437260220194913954166250002289int,
        694195233566676nat, 4,
        12084850875733009551105854211970485156906309794495034472951121415634843666837int,
        16727147622363527911121221398673634113106784052997362773690209404727367266301int,
        1291228391401314109178917290164482770500952048035016427057395774975776757589int,
        21656305680770361421798476594608898787779291669201607871720519490293143186176int,
        18917937189439588377713115537729263009881350238471275235118366370715745729223int,
        4852801806750642040011534731250097695820883118921355117338096194399446803658int,
        7298832758859418135855407033023320791163834118175059700376860874818767418857int,
    );
    lemma_leaves_digit(
        21888242871839275222246405745257275088696311157297823662689037894645226208583int,
        20520420087326380218354900027015874311863624918437260220194913954166250002289int,
        11107123737066820nat, 5,
        8003119166476924916434854973725577586463791011258499367649595432604216480137int,
        7298832758859418135855407033023320791163834118175059700376860874818767418857int,
        5904313416164430192315089874638129339546724130079856146739087886483595110486int,
        17822968471033755948049826533005138076529540018050175352196898134406971654405int,
        5982349181597347343473997070513072974851298577399455964665513138641517614797int,
        12871861738382538434439678812247634292894018001261068004816405442902645411705int,
        15291295189807566785089464087420172321650091968891504580904813636159889214082int,
    );
    lemma_leaves_digit(
        21888242871839275222246405745257275088696311157297823662689037894645226208583int,
        20520420087326380218354900027015874311863624918437260220194913954166250002289int,
        177713979793069125nat, 13,
        5405892420828625776204141083007904921577193329823551315365887467761178501400int,
        15291295189807566785089464087420172321650091968891504580904813636159889214082int,
        2545416906585525853345382367954747479281527513979164864029804955158299712343int,
        7418130392453752672434274539543396917033477565834784573490072753612151366029int,
        14693602937743658898649356828888433002500549086152412961525554503542581952995int,
        775351241188860593913174749905370110228891363374795878998337007435492381985int,
        13215086942735791946702418599616789950329864663749547370676544795766726804619int,
    );
    lemma_leaves_digit(
        21888242871839275222246405745257275088696311157297823662689037894645226208583int,
        20520420087326380218354900027015874311863624918437260220194913954166250002289int,
        2843423676689106013nat, 0, 1,
        13215086942735791946702418599616789950329864663749547370676544795766726804619int,
        6899872006345954595497336446241437183188023436546257417847232695131152274188int,
        14446856324681129901751380054355218236751294081770972488788184968371143655895int,
        8949607760509372549659039848424864265732705533020123272628999185273159329858int,
        4246751335182358788630681355529698815060052215470092989187073214166917265833int,
        4246751335182358788630681355529698815060052215470092989187073214166917265833int,
    );
    lemma_leaves_digit(
        21888242871839275222246405745257275088696311157297823662689037894645226208583int,
        20520420087326380218354900027015874311863624918437260220194913954166250002289int,
        45494778827025696208nat, 2,
        1168350874092745625405749664249284140222932432086006564121548311108330430949int,
        4246751335182358788630681355529698815060052215470092989187073214166917265833int,
        4593216947487749133841472679606492895115095407184466249750344436794052925600int,
        5163948225099685664563091551955346214870074962694169772719696938597337720973int,
        15770693719840909160020286716180508384055389918169935235107184102872869574805int,
        7900205891921629735998864896176531941884950177468357970222437266348922451327int,
        10922969529809421637072185359536985985117237399888240696628573231925519627444int,
    );
    lemma_leaves_digit(
        21888242871839275222246405745257275088696311157297823662689037894645226208583int,
        20520420087326380218354900027015874311863624918437260220194913954166250002289int,
        727916461232411139330nat, 10,
        7192909857687175186558945518041497841522085770108249448056635874379721417243int,
        10922969529809421637072185359536985985117237399888240696628573231925519627444int,
        12057330549084462844934871835123672077512568938785558172704207329216917493377int,
        3675055195520545389052253931071284789708906449278469836046881075809987854752int,
        10862564909088727824152674331237899300604489589305532386740433310433880742533int,
        1580029586921898592285835560509441106285241524659135209699581013866418705694int,
        13683399295203194927904994699505351605944093643560263471724282641182307048709int,
    );
    lemma_leaves_digit(
        21888242871839275222246405745257275088696311157297823662689037894645226208583int,
        20520420087326380218354900027015874311863624918437260220194913954166250002289int,
        11646663379718578229290nat, 3,
        13399419931120260899844553312938000796207280194125636406154589001619361367869int,
        13683399295203194927904994699505351605944093643560263471724282641182307048709int,
        2015666968720036938275823611024389700998976289779553459912876601582520045090int,
        107334060117361786981804554890369541885147552275724182705778584189426441884int,
        9091994476024159566284543784897538152851904928969022502495636654556904219852int,
        15612831835496650437818049388759121517112278640344626487708469620834858283226int,
        18907775863177548874009473924513750180371947752207374464796297089506085706239int,
    );
    lemma_leaves_digit(
        21888242871839275222246405745257275088696311157297823662689037894645226208583int,
        20520420087326380218354900027015874311863624918437260220194913954166250002289int,
        186346614075497251668643nat, 2,
        1168350874092745625405749664249284140222932432086006564121548311108330430949int,
        18907775863177548874009473924513750180371947752207374464796297089506085706239int,
        20411170678493604703383904401444219160796927888021852696604383368452669551895int,
        11949131436653225855366125994112114151332975659256597940963380464311113708616int,
        2345874788107895329620782563891590982617900115011775652364391223973678296364int,
        8104501193419306542992714402624139841267708182573243057706333787523170084604int,
        15981026427606811492776500334372159072648615811930712025477492636282220311334int,
    );
    lemma_leaves_digit(
        21888242871839275222246405745257275088696311157297823662689037894645226208583int,
        20520420087326380218354900027015874311863624918437260220194913954166250002289int,
        2981545825207956026698290nat, 10,
        7192909857687175186558945518041497841522085770108249448056635874379721417243int,
        15981026427606811492776500334372159072648615811930712025477492636282220311334int,
        5560046374451599621040912717222705204939870751139726080106537038576780950281int,
        14274869146262413382362165447294064001492472714211067915518027198941037734569int,
        10819809125663962164955644339042495486669420200790657760382427305056737193770int,
        8382456423130868242811161192836570196186384665769771243310762079561024396267int,
        6133558309398666728462459848480611071766606631577479070146944340045663609992int,
    );
    lemma_leaves_digit(
        21888242871839275222246405745257275088696311157297823662689037894645226208583int,
        20520420087326380218354900027015874311863624918437260220194913954166250002289int,
        47704733203327296427172650nat, 10,
        7192909857687175186558945518041497841522085770108249448056635874379721417243int,
        6133558309398666728462459848480611071766606631577479070146944340045663609992int,
        11422654638078695198678815849527830950478950818125723354292766331896129109325int,
        2655909292673245826829835202210473045152787543661135110718832685778705324871int,
        20708381549086504256873907685307700988342212458259263953597891790358227920243int,
        20798544606057380317941681044203610683826271680525530299181144611631554157007int,
        19565517766554588294175964097494878682316767296372595445066886914194994758660int,
    );
    lemma_leaves_digit(
        21888242871839275222246405745257275088696311157297823662689037894645226208583int,
        20520420087326380218354900027015874311863624918437260220194913954166250002289int,
        763275731253236742834762410nat, 0, 1,
        19565517766554588294175964097494878682316767296372595445066886914194994758660int,
        7569902485346355341735268260764842981292069380604974333899167971460082491271int,
        21779638022708406976437352516123516110047475312620436870827465117869407599257int,
        3882777604881055056374614938908648432605819834455302343583890834176648586829int,
        2613208471943464836993411084203446290771362904669738542042164884181410222429int,
        2613208471943464836993411084203446290771362904669738542042164884181410222429int,
    );
    lemma_leaves_digit(
        21888242871839275222246405745257275088696311157297823662689037894645226208583int,
        20520420087326380218354900027015874311863624918437260220194913954166250002289int,
        12212411700051787885356198560nat, 15,
        17195718475408585819620401284950055199964688991607441767763132964097381280063int,
        2613208471943464836993411084203446290771362904669738542042164884181410222429int,
        7575902487842484714878458451415214700806514383681504639700389774819020744248int,
        13832418073241429543625822228998048883435272009863256444792275996345898204581int,
        13582565528303547205539185324738651714874854624772185950603549343012811902485int,
        21584352094597917062946704301511495375352005552300705821409702248681701383215int,
        9474572758605589961811425022524668433179847880031430715616158899342175122180int,
    );
    lemma_leaves_digit(
        21888242871839275222246405745257275088696311157297823662689037894645226208583int,
        20520420087326380218354900027015874311863624918437260220194913954166250002289int,
        195398587200828606165699176975nat, 5,
        8003119166476924916434854973725577586463791011258499367649595432604216480137int,
        9474572758605589961811425022524668433179847880031430715616158899342175122180int,
        13672745299612246570563406507345550804586698617318292511409941178668239456872int,
        14811552227626340607576951984066505283279821374578812155981966052229627068644int,
        1033632128686443385085106598937518990075288094872887229225453882965188308659int,
        17955135267399552157742793649942223689251650447246046331842904646575927076230int,
        8096418777666527880935114263249260365071795399073675482621453291492439861729int,
    );
    lemma_leaves_digit(
        21888242871839275222246405745257275088696311157297823662689037894645226208583int,
        20520420087326380218354900027015874311863624918437260220194913954166250002289int,
        3126377395213257698651186831605nat, 9,
        1944099738983215340511157305465284169323853253662281453403900640043735484475int,
        8096418777666527880935114263249260365071795399073675482621453291492439861729int,
        21447926134129346820400931460237311191729001480953476359715956642109261511344int,
        10378933866155737346180080863969969328466198973143299417908384565329565816498int,
        7285987139940095149124862899497958063726310643062539284259044467444642418890int,
        4840292425165679506478906210240000318406134774145108216715915274559779975867int,
        1079254303472227163265414510288167257195767723415227202943436943114825595830int,
    );
    lemma_leaves_digit(
        21888242871839275222246405745257275088696311157297823662689037894645226208583int,
        20520420087326380218354900027015874311863624918437260220194913954166250002289int,
        50022038323412123178418989305689nat, 11,
        12570999299626469632139664901690611732101819984931606782752981849865125979429int,
        1079254303472227163265414510288167257195767723415227202943436943114825595830int,
        19130489207334816229969015520247573663506875492358152811028929799340923848970int,
        747295043083174860887861781175255220970673796466822025446979184053680373510int,
        6191550888849504972387225638518437406804752397261012504615802070585233392792int,
        1589145983415133884447944253690997492196038420755958191502661112443626703747int,
        12403083661788082568904169908929453453080092617744797756996077650120888832534int,
    );
    lemma_leaves_digit(
        21888242871839275222246405745257275088696311157297823662689037894645226208583int,
        20520420087326380218354900027015874311863624918437260220194913954166250002289int,
        800352613174593970854703828891035nat, 6,
        12542387463884224962964597149078819456503620970211717547762563009757598457904int,
        12403083661788082568904169908929453453080092617744797756996077650120888832534int,
        14680234674149577664931610068022929759970855772643695611829521039985119608589int,
        375770679505593900828891512261566764944211668939419949873882925282617959721int,
        21035100239870209221466458604648440148513271580596751667208838308327757696451int,
        15395645736251988454998358247462453005135790865630579778055619575947358203781int,
        1849423197598879922674866944270010600921612305482472423177029465451328310403int,
    );
    lemma_leaves_digit(
        21888242871839275222246405745257275088696311157297823662689037894645226208583int,
        20520420087326380218354900027015874311863624918437260220194913954166250002289int,
        12805641810793503533675261262256566nat, 6,
        12542387463884224962964597149078819456503620970211717547762563009757598457904int,
        1849423197598879922674866944270010600921612305482472423177029465451328310403int,
        2694043037735802699111787392575206347518219541351108625492717318088837392702int,
        191701241836127061688219263199904967172029209930467259706496939988189319292int,
        20914338144310840273315259085444549564841367129626291461032009293162591942060int,
        18786456158099180069978343664038126873948727447885219498643393047926684940476int,
        19259977976305846777062358141805383762677681370301353099012234962177075609241int,
    );
    lemma_leaves_digit(
        21888242871839275222246405745257275088696311157297823662689037894645226208583int,
        20520420087326380218354900027015874311863624918437260220194913954166250002289int,
        204890268972696056538804180196105062nat, 10,
        7192909857687175186558945518041497841522085770108249448056635874379721417243int,
        19259977976305846777062358141805383762677681370301353099012234962177075609241int,
        6028182798697602634525289447046676836085939157119251917272070028400782155983int,
        19657959055760911891496253196438131183779001274474866900098324141177522299003int,
        14007639895559464494732089400361628808820090791169888660504408888146592508381int,
        8511095282806528502140570646668167423979473974339604024790740767062777000499int,
        16128152718130344605286851125090617631713422334021703245649901895847353486638int,
    );
    lemma_leaves_digit(
        21888242871839275222246405745257275088696311157297823662689037894645226208583int,
        20520420087326380218354900027015874311863624918437260220194913954166250002289int,
        3278244303563136904620866883137681002nat, 10,
        7192909857687175186558945518041497841522085770108249448056635874379721417243int,
        16128152718130344605286851125090617631713422334021703245649901895847353486638int,
        10668426037886631772557522096450924054174426762431232413906300928264613531869int,
        21007643315718744800825770509569221453015628099373454788114473862949497174011int,
        6150092972259234590883147111595819590335921901483212985316928087571699909063int,
        5916455450598211405085010318468776823913198346833259848311612843913621010308int,
        3536474726870592746837496301682467019275971630298077527091074993252488455374int,
    );
    lemma_leaves_digit(
        21888242871839275222246405745257275088696311157297823662689037894645226208583int,
        20520420087326380218354900027015874311863624918437260220194913954166250002289int,
        52451908857010190473933870130202896042nat, 1,
        20520420087326380218354900027015874311863624918437260220194913954166250002289int,
        3536474726870592746837496301682467019275971630298077527091074993252488455374int,
        13212588185681505715355059856830095067589669587745640311434340182484271901233int,
        5268492040812475929011861354356358542375820697864984741804946246862235650127int,
        21255027283617507042572505379677870006756283953933128320881412245287461956469int,
        4434892893668397579633011895908828271105364298270138060367085695240146856776int,
        4204673850110849669371637989465644433594405089574660937165909421016675259325int,
    );
    lemma_leaves_digit(
        21888242871839275222246405745257275088696311157297823662689037894645226208583int,
        20520420087326380218354900027015874311863624918437260220194913954166250002289int,
        839230541712163047582941922083246336673nat, 1,
        20520420087326380218354900027015874311863624918437260220194913954166250002289int,
        4204673850110849669371637989465644433594405089574660937165909421016675259325int,
        13038646377868259199770482066988551400019844377625248307083906968838745681221int,
        8927115276395136471738888244628663175246246945148376305761267113872457284713int,
        9440706190465490338709687782652509219413205211107886418176482807290804848772int,
        10714922605290891120183404489975313603902140222923225838745804136216824505917int, 1,
    );
}

/// The modulus is a prime.
pub proof fn lemma_modulus_prime()
    ensures
        is_prime(modulus() as int),
{
    reveal(modulus);
    lemma_prime_factor();
    lemma_modulus_power();
    lemma_leaves_itself(
        21888242871839275222246405745257275088696311157297823662689037894645226208583int,
        20520420087326380218354900027015874311863624918437260220194913954166250002289int,
    );
    lemma_certificate(
        21888242871839275222246405745257275088696311157297823662689037894645226208583int,
        20520420087326380218354900027015874311863624918437260220194913954166250002289int,
        13427688667394608761327070753331941386769int,
        1,
        20520420087326380218354900027015874311863624918437260220194913954166250002289int,
        0,
        7760040696430108728351579495285625070970037227808537281002514205477518194167int,
        0,
    );
}

/// Each element but zero has an inverse.
pub proof fn lemma_field(a: nat)
    requires
        0 < a < modulus(),
    ensures
        is_inverse(a, finv(a)),
        fmul(a, finv(a)) == 1,
{
    lemma_modulus_prime();
    lemma_constants();
    let w = lemma_inverse(a as int, modulus() as int) as nat;
    assert(is_inverse(a, w)) by {
        reveal(fmul);
    }
    lemma_finv_unique(a, w);
}

/// A product is zero only where a factor is.
pub proof fn lemma_no_zero_divisors(a: nat, b: nat)
    requires
        a < modulus(),
        b < modulus(),
        fmul(a, b) == 0,
    ensures
        a == 0 || b == 0,
{
    if a != 0 {
        lemma_field(a);
        // b = (1 / a) (a b)
        lemma_fmul_associates(finv(a), a, b);
        lemma_fmul_commutes(finv(a), a);
        lemma_fmul_one(b);
        lemma_fmul_commutes(1, b);
        lemma_fmul_zero(finv(a));
        lemma_fmul_commutes(finv(a), 0);
    }
}

} // verus!
