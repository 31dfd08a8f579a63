//! The field's modulus is prime.
//!
//! Trial division shows that 103 is prime. Each number below is then prime
//! because the one before it, twice it or `2^31` times it, is the order of a base
//! modulo the number: 14009, 28019, 56039, 19165339, 18053749339, and last the
//! field's modulus. The powers of the bases are computed step by step.

use vstd::arithmetic::power::*;
use vstd::arithmetic::power2::*;
use vstd::prelude::*;

use crate::field;
use crate::primality;

verus! {

/// The base of 14009, to half its order.
proof fn lemma_power_in_14009()
    ensures
        pow(3872int, 103) % 14009int == 14008int,
{
    lemma_pow1(3872int);
    assert(3872int * 3872int == 1070int * 14009int + 2754int) by (nonlinear_arith);
    primality::lemma_power_step(3872, 14009, 1, 3872, 1, 3872, 1070, 2754);
    assert(2754int * 3872int == 761int * 14009int + 2639int) by (nonlinear_arith);
    primality::lemma_power_step(3872, 14009, 2, 2754, 1, 3872, 761, 2639);
    assert(2639int * 2639int == 497int * 14009int + 1848int) by (nonlinear_arith);
    primality::lemma_power_step(3872, 14009, 3, 2639, 3, 2639, 497, 1848);
    assert(1848int * 1848int == 243int * 14009int + 10917int) by (nonlinear_arith);
    primality::lemma_power_step(3872, 14009, 6, 1848, 6, 1848, 243, 10917);
    assert(10917int * 10917int == 8507int * 14009int + 6326int) by (nonlinear_arith);
    primality::lemma_power_step(3872, 14009, 12, 10917, 12, 10917, 8507, 6326);
    assert(6326int * 3872int == 1748int * 14009int + 6540int) by (nonlinear_arith);
    primality::lemma_power_step(3872, 14009, 24, 6326, 1, 3872, 1748, 6540);
    assert(6540int * 6540int == 3053int * 14009int + 2123int) by (nonlinear_arith);
    primality::lemma_power_step(3872, 14009, 25, 6540, 25, 6540, 3053, 2123);
    assert(2123int * 3872int == 586int * 14009int + 10982int) by (nonlinear_arith);
    primality::lemma_power_step(3872, 14009, 50, 2123, 1, 3872, 586, 10982);
    assert(10982int * 10982int == 8609int * 14009int + 843int) by (nonlinear_arith);
    primality::lemma_power_step(3872, 14009, 51, 10982, 51, 10982, 8609, 843);
    assert(843int * 3872int == 232int * 14009int + 14008int) by (nonlinear_arith);
    primality::lemma_power_step(3872, 14009, 102, 843, 1, 3872, 232, 14008);
}

/// The base of 28019, to its order.
proof fn lemma_power_in_28019()
    ensures
        pow(4int, 14009) % 28019int == 1int,
{
    lemma_pow1(4int);
    assert(4int * 4int == 0int * 28019int + 16int) by (nonlinear_arith);
    primality::lemma_power_step(4, 28019, 1, 4, 1, 4, 0, 16);
    assert(16int * 4int == 0int * 28019int + 64int) by (nonlinear_arith);
    primality::lemma_power_step(4, 28019, 2, 16, 1, 4, 0, 64);
    assert(64int * 64int == 0int * 28019int + 4096int) by (nonlinear_arith);
    primality::lemma_power_step(4, 28019, 3, 64, 3, 64, 0, 4096);
    assert(4096int * 4096int == 598int * 28019int + 21854int) by (nonlinear_arith);
    primality::lemma_power_step(4, 28019, 6, 4096, 6, 4096, 598, 21854);
    assert(21854int * 4int == 3int * 28019int + 3359int) by (nonlinear_arith);
    primality::lemma_power_step(4, 28019, 12, 21854, 1, 4, 3, 3359);
    assert(3359int * 3359int == 402int * 28019int + 19243int) by (nonlinear_arith);
    primality::lemma_power_step(4, 28019, 13, 3359, 13, 3359, 402, 19243);
    assert(19243int * 4int == 2int * 28019int + 20934int) by (nonlinear_arith);
    primality::lemma_power_step(4, 28019, 26, 19243, 1, 4, 2, 20934);
    assert(20934int * 20934int == 15640int * 28019int + 15196int) by (nonlinear_arith);
    primality::lemma_power_step(4, 28019, 27, 20934, 27, 20934, 15640, 15196);
    assert(15196int * 15196int == 8241int * 28019int + 13837int) by (nonlinear_arith);
    primality::lemma_power_step(4, 28019, 54, 15196, 54, 15196, 8241, 13837);
    assert(13837int * 4int == 1int * 28019int + 27329int) by (nonlinear_arith);
    primality::lemma_power_step(4, 28019, 108, 13837, 1, 4, 1, 27329);
    assert(27329int * 27329int == 26655int * 28019int + 27796int) by (nonlinear_arith);
    primality::lemma_power_step(4, 28019, 109, 27329, 109, 27329, 26655, 27796);
    assert(27796int * 27796int == 27574int * 28019int + 21710int) by (nonlinear_arith);
    primality::lemma_power_step(4, 28019, 218, 27796, 218, 27796, 27574, 21710);
    assert(21710int * 4int == 3int * 28019int + 2783int) by (nonlinear_arith);
    primality::lemma_power_step(4, 28019, 436, 21710, 1, 4, 3, 2783);
    assert(2783int * 2783int == 276int * 28019int + 11845int) by (nonlinear_arith);
    primality::lemma_power_step(4, 28019, 437, 2783, 437, 2783, 276, 11845);
    assert(11845int * 4int == 1int * 28019int + 19361int) by (nonlinear_arith);
    primality::lemma_power_step(4, 28019, 874, 11845, 1, 4, 1, 19361);
    assert(19361int * 19361int == 13378int * 28019int + 10139int) by (nonlinear_arith);
    primality::lemma_power_step(4, 28019, 875, 19361, 875, 19361, 13378, 10139);
    assert(10139int * 4int == 1int * 28019int + 12537int) by (nonlinear_arith);
    primality::lemma_power_step(4, 28019, 1750, 10139, 1, 4, 1, 12537);
    assert(12537int * 12537int == 5609int * 28019int + 17798int) by (nonlinear_arith);
    primality::lemma_power_step(4, 28019, 1751, 12537, 1751, 12537, 5609, 17798);
    assert(17798int * 17798int == 11305int * 28019int + 14009int) by (nonlinear_arith);
    primality::lemma_power_step(4, 28019, 3502, 17798, 3502, 17798, 11305, 14009);
    assert(14009int * 14009int == 7004int * 28019int + 7005int) by (nonlinear_arith);
    primality::lemma_power_step(4, 28019, 7004, 14009, 7004, 14009, 7004, 7005);
    assert(7005int * 4int == 1int * 28019int + 1int) by (nonlinear_arith);
    primality::lemma_power_step(4, 28019, 14008, 7005, 1, 4, 1, 1);
}

/// The base of 56039, to its order.
proof fn lemma_power_in_56039()
    ensures
        pow(4int, 28019) % 56039int == 1int,
{
    lemma_pow1(4int);
    assert(4int * 4int == 0int * 56039int + 16int) by (nonlinear_arith);
    primality::lemma_power_step(4, 56039, 1, 4, 1, 4, 0, 16);
    assert(16int * 4int == 0int * 56039int + 64int) by (nonlinear_arith);
    primality::lemma_power_step(4, 56039, 2, 16, 1, 4, 0, 64);
    assert(64int * 64int == 0int * 56039int + 4096int) by (nonlinear_arith);
    primality::lemma_power_step(4, 56039, 3, 64, 3, 64, 0, 4096);
    assert(4096int * 4096int == 299int * 56039int + 21555int) by (nonlinear_arith);
    primality::lemma_power_step(4, 56039, 6, 4096, 6, 4096, 299, 21555);
    assert(21555int * 4int == 1int * 56039int + 30181int) by (nonlinear_arith);
    primality::lemma_power_step(4, 56039, 12, 21555, 1, 4, 1, 30181);
    assert(30181int * 30181int == 16254int * 56039int + 34855int) by (nonlinear_arith);
    primality::lemma_power_step(4, 56039, 13, 30181, 13, 30181, 16254, 34855);
    assert(34855int * 4int == 2int * 56039int + 27342int) by (nonlinear_arith);
    primality::lemma_power_step(4, 56039, 26, 34855, 1, 4, 2, 27342);
    assert(27342int * 27342int == 13340int * 56039int + 24704int) by (nonlinear_arith);
    primality::lemma_power_step(4, 56039, 27, 27342, 27, 27342, 13340, 24704);
    assert(24704int * 24704int == 10890int * 56039int + 22906int) by (nonlinear_arith);
    primality::lemma_power_step(4, 56039, 54, 24704, 54, 24704, 10890, 22906);
    assert(22906int * 4int == 1int * 56039int + 35585int) by (nonlinear_arith);
    primality::lemma_power_step(4, 56039, 108, 22906, 1, 4, 1, 35585);
    assert(35585int * 35585int == 22596int * 56039int + 34981int) by (nonlinear_arith);
    primality::lemma_power_step(4, 56039, 109, 35585, 109, 35585, 22596, 34981);
    assert(34981int * 34981int == 21836int * 56039int + 2757int) by (nonlinear_arith);
    primality::lemma_power_step(4, 56039, 218, 34981, 218, 34981, 21836, 2757);
    assert(2757int * 4int == 0int * 56039int + 11028int) by (nonlinear_arith);
    primality::lemma_power_step(4, 56039, 436, 2757, 1, 4, 0, 11028);
    assert(11028int * 11028int == 2170int * 56039int + 12154int) by (nonlinear_arith);
    primality::lemma_power_step(4, 56039, 437, 11028, 437, 11028, 2170, 12154);
    assert(12154int * 4int == 0int * 56039int + 48616int) by (nonlinear_arith);
    primality::lemma_power_step(4, 56039, 874, 12154, 1, 4, 0, 48616);
    assert(48616int * 48616int == 42176int * 56039int + 14592int) by (nonlinear_arith);
    primality::lemma_power_step(4, 56039, 875, 48616, 875, 48616, 42176, 14592);
    assert(14592int * 4int == 1int * 56039int + 2329int) by (nonlinear_arith);
    primality::lemma_power_step(4, 56039, 1750, 14592, 1, 4, 1, 2329);
    assert(2329int * 2329int == 96int * 56039int + 44497int) by (nonlinear_arith);
    primality::lemma_power_step(4, 56039, 1751, 2329, 1751, 2329, 96, 44497);
    assert(44497int * 44497int == 35332int * 56039int + 13061int) by (nonlinear_arith);
    primality::lemma_power_step(4, 56039, 3502, 44497, 3502, 44497, 35332, 13061);
    assert(13061int * 13061int == 3044int * 56039int + 7005int) by (nonlinear_arith);
    primality::lemma_power_step(4, 56039, 7004, 13061, 7004, 13061, 3044, 7005);
    assert(7005int * 4int == 0int * 56039int + 28020int) by (nonlinear_arith);
    primality::lemma_power_step(4, 56039, 14008, 7005, 1, 4, 0, 28020);
    assert(28020int * 28020int == 14010int * 56039int + 14010int) by (nonlinear_arith);
    primality::lemma_power_step(4, 56039, 14009, 28020, 14009, 28020, 14010, 14010);
    assert(14010int * 4int == 1int * 56039int + 1int) by (nonlinear_arith);
    primality::lemma_power_step(4, 56039, 28018, 14010, 1, 4, 1, 1);
}

/// The base to the power `2^31`.
proof fn lemma_base_to_two_part()
    ensures
        pow(157731424658257235830472548999435659689int, 2147483648) % 340282366920938463463374557953744961537int == 40664971873991271173740595132179155414int,
{
    lemma_pow1(157731424658257235830472548999435659689int);
    assert(157731424658257235830472548999435659689int * 157731424658257235830472548999435659689int == 73113404464192929701097227376959006738int * 340282366920938463463374557953744961537int + 242845359636927077125196654627085740415int) by (nonlinear_arith);
    primality::lemma_power_step(157731424658257235830472548999435659689, 340282366920938463463374557953744961537, 1, 157731424658257235830472548999435659689, 1, 157731424658257235830472548999435659689, 73113404464192929701097227376959006738, 242845359636927077125196654627085740415);
    assert(242845359636927077125196654627085740415int * 242845359636927077125196654627085740415int == 173308623749200900841605934506849097462int * 340282366920938463463374557953744961537int + 71340781690325401527860795870410053131int) by (nonlinear_arith);
    primality::lemma_power_step(157731424658257235830472548999435659689, 340282366920938463463374557953744961537, 2, 242845359636927077125196654627085740415, 2, 242845359636927077125196654627085740415, 173308623749200900841605934506849097462, 71340781690325401527860795870410053131);
    assert(71340781690325401527860795870410053131int * 71340781690325401527860795870410053131int == 14956717205887923950707699648510036213int * 340282366920938463463374557953744961537int + 282991115628021618606673333184080763780int) by (nonlinear_arith);
    primality::lemma_power_step(157731424658257235830472548999435659689, 340282366920938463463374557953744961537, 4, 71340781690325401527860795870410053131, 4, 71340781690325401527860795870410053131, 14956717205887923950707699648510036213, 282991115628021618606673333184080763780);
    assert(282991115628021618606673333184080763780int * 282991115628021618606673333184080763780int == 235345640295840217664321994418637362560int * 340282366920938463463374557953744961537int + 42516063436267877207479123089836033680int) by (nonlinear_arith);
    primality::lemma_power_step(157731424658257235830472548999435659689, 340282366920938463463374557953744961537, 8, 282991115628021618606673333184080763780, 8, 282991115628021618606673333184080763780, 235345640295840217664321994418637362560, 42516063436267877207479123089836033680);
    assert(42516063436267877207479123089836033680int * 42516063436267877207479123089836033680int == 5312104962925503205404932518830074846int * 340282366920938463463374557953744961537int + 297948781462247327796474743116993144098int) by (nonlinear_arith);
    primality::lemma_power_step(157731424658257235830472548999435659689, 340282366920938463463374557953744961537, 16, 42516063436267877207479123089836033680, 16, 42516063436267877207479123089836033680, 5312104962925503205404932518830074846, 297948781462247327796474743116993144098);
    assert(297948781462247327796474743116993144098int * 297948781462247327796474743116993144098int == 260881799953694729199372146898680149597int * 340282366920938463463374557953744961537int + 252602443451963198486012751479221183015int) by (nonlinear_arith);
    primality::lemma_power_step(157731424658257235830472548999435659689, 340282366920938463463374557953744961537, 32, 297948781462247327796474743116993144098, 32, 297948781462247327796474743116993144098, 260881799953694729199372146898680149597, 252602443451963198486012751479221183015);
    assert(252602443451963198486012751479221183015int * 252602443451963198486012751479221183015int == 187514842497635138828332304330602493734int * 340282366920938463463374557953744961537int + 228060589381924400109611023926010981067int) by (nonlinear_arith);
    primality::lemma_power_step(157731424658257235830472548999435659689, 340282366920938463463374557953744961537, 64, 252602443451963198486012751479221183015, 64, 252602443451963198486012751479221183015, 187514842497635138828332304330602493734, 228060589381924400109611023926010981067);
    assert(228060589381924400109611023926010981067int * 228060589381924400109611023926010981067int == 152848450244015029331035325019591308446int * 340282366920938463463374557953744961537int + 17889946458711074057325471378059216987int) by (nonlinear_arith);
    primality::lemma_power_step(157731424658257235830472548999435659689, 340282366920938463463374557953744961537, 128, 228060589381924400109611023926010981067, 128, 228060589381924400109611023926010981067, 152848450244015029331035325019591308446, 17889946458711074057325471378059216987);
    assert(17889946458711074057325471378059216987int * 17889946458711074057325471378059216987int == 940542959047624324630274465558303018int * 340282366920938463463374557953744961537int + 339101138930916103733553333690148339503int) by (nonlinear_arith);
    primality::lemma_power_step(157731424658257235830472548999435659689, 340282366920938463463374557953744961537, 256, 17889946458711074057325471378059216987, 256, 17889946458711074057325471378059216987, 940542959047624324630274465558303018, 339101138930916103733553333690148339503);
    assert(339101138930916103733553333690148339503int * 339101138930916103733553333690148339503int == 337924011357782922540676772858038838323int * 340282366920938463463374557953744961537int + 205649715111845314832872188126353704558int) by (nonlinear_arith);
    primality::lemma_power_step(157731424658257235830472548999435659689, 340282366920938463463374557953744961537, 512, 339101138930916103733553333690148339503, 512, 339101138930916103733553333690148339503, 337924011357782922540676772858038838323, 205649715111845314832872188126353704558);
    assert(205649715111845314832872188126353704558int * 205649715111845314832872188126353704558int == 124284445615747284635009878041619350454int * 340282366920938463463374557953744961537int + 12547221031605696550017301585196487566int) by (nonlinear_arith);
    primality::lemma_power_step(157731424658257235830472548999435659689, 340282366920938463463374557953744961537, 1024, 205649715111845314832872188126353704558, 1024, 205649715111845314832872188126353704558, 124284445615747284635009878041619350454, 12547221031605696550017301585196487566);
    assert(12547221031605696550017301585196487566int * 12547221031605696550017301585196487566int == 462653287152391295400028690460054970int * 340282366920938463463374557953744961537int + 45203496133135329586767895386036915466int) by (nonlinear_arith);
    primality::lemma_power_step(157731424658257235830472548999435659689, 340282366920938463463374557953744961537, 2048, 12547221031605696550017301585196487566, 2048, 12547221031605696550017301585196487566, 462653287152391295400028690460054970, 45203496133135329586767895386036915466);
    assert(45203496133135329586767895386036915466int * 45203496133135329586767895386036915466int == 6004883770933496628249186398463495606int * 340282366920938463463374557953744961537int + 290270126891577533224221527860591490734int) by (nonlinear_arith);
    primality::lemma_power_step(157731424658257235830472548999435659689, 340282366920938463463374557953744961537, 4096, 45203496133135329586767895386036915466, 4096, 45203496133135329586767895386036915466, 6004883770933496628249186398463495606, 290270126891577533224221527860591490734);
    assert(290270126891577533224221527860591490734int * 290270126891577533224221527860591490734int == 247608324016474286387103651345359938361int * 340282366920938463463374557953744961537int + 293684461151775303997121767235772037899int) by (nonlinear_arith);
    primality::lemma_power_step(157731424658257235830472548999435659689, 340282366920938463463374557953744961537, 8192, 290270126891577533224221527860591490734, 8192, 290270126891577533224221527860591490734, 247608324016474286387103651345359938361, 293684461151775303997121767235772037899);
    assert(293684461151775303997121767235772037899int * 293684461151775303997121767235772037899int == 253467623087411277651140882025034153117int * 340282366920938463463374557953744961537int + 102536294182076915077651716362958673372int) by (nonlinear_arith);
    primality::lemma_power_step(157731424658257235830472548999435659689, 340282366920938463463374557953744961537, 16384, 293684461151775303997121767235772037899, 16384, 293684461151775303997121767235772037899, 253467623087411277651140882025034153117, 102536294182076915077651716362958673372);
    assert(102536294182076915077651716362958673372int * 102536294182076915077651716362958673372int == 30896962777492909512662974408330843775int * 340282366920938463463374557953744961537int + 66286189396968930383262676404050968209int) by (nonlinear_arith);
    primality::lemma_power_step(157731424658257235830472548999435659689, 340282366920938463463374557953744961537, 32768, 102536294182076915077651716362958673372, 32768, 102536294182076915077651716362958673372, 30896962777492909512662974408330843775, 66286189396968930383262676404050968209);
    assert(66286189396968930383262676404050968209int * 66286189396968930383262676404050968209int == 12912390802170803366343485467018532498int * 340282366920938463463374557953744961537int + 157689657100800687478757333259134138255int) by (nonlinear_arith);
    primality::lemma_power_step(157731424658257235830472548999435659689, 340282366920938463463374557953744961537, 65536, 66286189396968930383262676404050968209, 65536, 66286189396968930383262676404050968209, 12912390802170803366343485467018532498, 157689657100800687478757333259134138255);
    assert(157689657100800687478757333259134138255int * 157689657100800687478757333259134138255int == 73074688475837179746591392595835933733int * 340282366920938463463374557953744961537int + 24057296276797922203608953618888617404int) by (nonlinear_arith);
    primality::lemma_power_step(157731424658257235830472548999435659689, 340282366920938463463374557953744961537, 131072, 157689657100800687478757333259134138255, 131072, 157689657100800687478757333259134138255, 73074688475837179746591392595835933733, 24057296276797922203608953618888617404);
    assert(24057296276797922203608953618888617404int * 24057296276797922203608953618888617404int == 1700803686616248683560242370124042514int * 340282366920938463463374557953744961537int + 81280305899140725024887832800808915198int) by (nonlinear_arith);
    primality::lemma_power_step(157731424658257235830472548999435659689, 340282366920938463463374557953744961537, 262144, 24057296276797922203608953618888617404, 262144, 24057296276797922203608953618888617404, 1700803686616248683560242370124042514, 81280305899140725024887832800808915198);
    assert(81280305899140725024887832800808915198int * 81280305899140725024887832800808915198int == 19414723680327662790540032186358711791int * 340282366920938463463374557953744961537int + 254012050403561395112326952405391996437int) by (nonlinear_arith);
    primality::lemma_power_step(157731424658257235830472548999435659689, 340282366920938463463374557953744961537, 524288, 81280305899140725024887832800808915198, 524288, 81280305899140725024887832800808915198, 19414723680327662790540032186358711791, 254012050403561395112326952405391996437);
    assert(254012050403561395112326952405391996437int * 254012050403561395112326952405391996437int == 189613474051132797357308303771616100833int * 340282366920938463463374557953744961537int + 239525979969395041199394720877122034648int) by (nonlinear_arith);
    primality::lemma_power_step(157731424658257235830472548999435659689, 340282366920938463463374557953744961537, 1048576, 254012050403561395112326952405391996437, 1048576, 254012050403561395112326952405391996437, 189613474051132797357308303771616100833, 239525979969395041199394720877122034648);
    assert(239525979969395041199394720877122034648int * 239525979969395041199394720877122034648int == 168603197395852904575838780831725495047int * 340282366920938463463374557953744961537int + 155941719055892016403256463104013476665int) by (nonlinear_arith);
    primality::lemma_power_step(157731424658257235830472548999435659689, 340282366920938463463374557953744961537, 2097152, 239525979969395041199394720877122034648, 2097152, 239525979969395041199394720877122034648, 168603197395852904575838780831725495047, 155941719055892016403256463104013476665);
    assert(155941719055892016403256463104013476665int * 155941719055892016403256463104013476665int == 71463649327902968178490795381697976034int * 340282366920938463463374557953744961537int + 97620761312615812763234793642421717967int) by (nonlinear_arith);
    primality::lemma_power_step(157731424658257235830472548999435659689, 340282366920938463463374557953744961537, 4194304, 155941719055892016403256463104013476665, 4194304, 155941719055892016403256463104013476665, 71463649327902968178490795381697976034, 97620761312615812763234793642421717967);
    assert(97620761312615812763234793642421717967int * 97620761312615812763234793642421717967int == 28005603480091209738355643191493531734int * 340282366920938463463374557953744961537int + 278615334747582656295329190443571697931int) by (nonlinear_arith);
    primality::lemma_power_step(157731424658257235830472548999435659689, 340282366920938463463374557953744961537, 8388608, 97620761312615812763234793642421717967, 8388608, 97620761312615812763234793642421717967, 28005603480091209738355643191493531734, 278615334747582656295329190443571697931);
    assert(278615334747582656295329190443571697931int * 278615334747582656295329190443571697931int == 228123794538385108941923775386976690518int * 340282366920938463463374557953744961537int + 73361051338742887187401470584847074595int) by (nonlinear_arith);
    primality::lemma_power_step(157731424658257235830472548999435659689, 340282366920938463463374557953744961537, 16777216, 278615334747582656295329190443571697931, 16777216, 278615334747582656295329190443571697931, 228123794538385108941923775386976690518, 73361051338742887187401470584847074595);
    assert(73361051338742887187401470584847074595int * 73361051338742887187401470584847074595int == 15815817617067687797115730758528706014int * 340282366920938463463374557953744961537int + 49026578330418385800315612296683830507int) by (nonlinear_arith);
    primality::lemma_power_step(157731424658257235830472548999435659689, 340282366920938463463374557953744961537, 33554432, 73361051338742887187401470584847074595, 33554432, 73361051338742887187401470584847074595, 15815817617067687797115730758528706014, 49026578330418385800315612296683830507);
    assert(49026578330418385800315612296683830507int * 49026578330418385800315612296683830507int == 7063561372685248932890173018760033202int * 340282366920938463463374557953744961537int + 263644248282549283144641292631970925575int) by (nonlinear_arith);
    primality::lemma_power_step(157731424658257235830472548999435659689, 340282366920938463463374557953744961537, 67108864, 49026578330418385800315612296683830507, 67108864, 49026578330418385800315612296683830507, 7063561372685248932890173018760033202, 263644248282549283144641292631970925575);
    assert(263644248282549283144641292631970925575int * 263644248282549283144641292631970925575int == 204266504554495808911821142694970311529int * 340282366920938463463374557953744961537int + 52275735676020488454720626539176420552int) by (nonlinear_arith);
    primality::lemma_power_step(157731424658257235830472548999435659689, 340282366920938463463374557953744961537, 134217728, 263644248282549283144641292631970925575, 134217728, 263644248282549283144641292631970925575, 204266504554495808911821142694970311529, 52275735676020488454720626539176420552);
    assert(52275735676020488454720626539176420552int * 52275735676020488454720626539176420552int == 8030837933791884261181759631985661234int * 340282366920938463463374557953744961537int + 289338007419658849369656496710326028046int) by (nonlinear_arith);
    primality::lemma_power_step(157731424658257235830472548999435659689, 340282366920938463463374557953744961537, 268435456, 52275735676020488454720626539176420552, 268435456, 52275735676020488454720626539176420552, 8030837933791884261181759631985661234, 289338007419658849369656496710326028046);
    assert(289338007419658849369656496710326028046int * 289338007419658849369656496710326028046int == 246020630734090692553339771956359760345int * 340282366920938463463374557953744961537int + 241968511316825559826006713830215727851int) by (nonlinear_arith);
    primality::lemma_power_step(157731424658257235830472548999435659689, 340282366920938463463374557953744961537, 536870912, 289338007419658849369656496710326028046, 536870912, 289338007419658849369656496710326028046, 246020630734090692553339771956359760345, 241968511316825559826006713830215727851);
    assert(241968511316825559826006713830215727851int * 241968511316825559826006713830215727851int == 172059342947041434694540743134661921251int * 340282366920938463463374557953744961537int + 40664971873991271173740595132179155414int) by (nonlinear_arith);
    primality::lemma_power_step(157731424658257235830472548999435659689, 340282366920938463463374557953744961537, 1073741824, 241968511316825559826006713830215727851, 1073741824, 241968511316825559826006713830215727851, 172059342947041434694540743134661921251, 40664971873991271173740595132179155414);
}

/// The base to the power of the odd prime.
proof fn lemma_base_to_prime_part()
    ensures
        pow(157731424658257235830472548999435659689int, 18053749339) % 340282366920938463463374557953744961537int == 288816269265998269031362754590810763605int,
{
    lemma_pow1(157731424658257235830472548999435659689int);
    assert(157731424658257235830472548999435659689int * 157731424658257235830472548999435659689int == 73113404464192929701097227376959006738int * 340282366920938463463374557953744961537int + 242845359636927077125196654627085740415int) by (nonlinear_arith);
    primality::lemma_power_step(157731424658257235830472548999435659689, 340282366920938463463374557953744961537, 1, 157731424658257235830472548999435659689, 1, 157731424658257235830472548999435659689, 73113404464192929701097227376959006738, 242845359636927077125196654627085740415);
    assert(242845359636927077125196654627085740415int * 242845359636927077125196654627085740415int == 173308623749200900841605934506849097462int * 340282366920938463463374557953744961537int + 71340781690325401527860795870410053131int) by (nonlinear_arith);
    primality::lemma_power_step(157731424658257235830472548999435659689, 340282366920938463463374557953744961537, 2, 242845359636927077125196654627085740415, 2, 242845359636927077125196654627085740415, 173308623749200900841605934506849097462, 71340781690325401527860795870410053131);
    assert(71340781690325401527860795870410053131int * 71340781690325401527860795870410053131int == 14956717205887923950707699648510036213int * 340282366920938463463374557953744961537int + 282991115628021618606673333184080763780int) by (nonlinear_arith);
    primality::lemma_power_step(157731424658257235830472548999435659689, 340282366920938463463374557953744961537, 4, 71340781690325401527860795870410053131, 4, 71340781690325401527860795870410053131, 14956717205887923950707699648510036213, 282991115628021618606673333184080763780);
    assert(282991115628021618606673333184080763780int * 282991115628021618606673333184080763780int == 235345640295840217664321994418637362560int * 340282366920938463463374557953744961537int + 42516063436267877207479123089836033680int) by (nonlinear_arith);
    primality::lemma_power_step(157731424658257235830472548999435659689, 340282366920938463463374557953744961537, 8, 282991115628021618606673333184080763780, 8, 282991115628021618606673333184080763780, 235345640295840217664321994418637362560, 42516063436267877207479123089836033680);
    assert(42516063436267877207479123089836033680int * 42516063436267877207479123089836033680int == 5312104962925503205404932518830074846int * 340282366920938463463374557953744961537int + 297948781462247327796474743116993144098int) by (nonlinear_arith);
    primality::lemma_power_step(157731424658257235830472548999435659689, 340282366920938463463374557953744961537, 16, 42516063436267877207479123089836033680, 16, 42516063436267877207479123089836033680, 5312104962925503205404932518830074846, 297948781462247327796474743116993144098);
    assert(297948781462247327796474743116993144098int * 157731424658257235830472548999435659689int == 138108495601686832127156174234257503865int * 340282366920938463463374557953744961537int + 14628107970483262741920525196813025017int) by (nonlinear_arith);
    primality::lemma_power_step(157731424658257235830472548999435659689, 340282366920938463463374557953744961537, 32, 297948781462247327796474743116993144098, 1, 157731424658257235830472548999435659689, 138108495601686832127156174234257503865, 14628107970483262741920525196813025017);
    assert(14628107970483262741920525196813025017int * 14628107970483262741920525196813025017int == 628835236842679656353665687549830712int * 340282366920938463463374557953744961537int + 325136600203383505197750130154966525945int) by (nonlinear_arith);
    primality::lemma_power_step(157731424658257235830472548999435659689, 340282366920938463463374557953744961537, 33, 14628107970483262741920525196813025017, 33, 14628107970483262741920525196813025017, 628835236842679656353665687549830712, 325136600203383505197750130154966525945);
    assert(325136600203383505197750130154966525945int * 157731424658257235830472548999435659689int == 150710892317665476711550399788014441901int * 340282366920938463463374557953744961537int + 211566241468480083331919816083842969268int) by (nonlinear_arith);
    primality::lemma_power_step(157731424658257235830472548999435659689, 340282366920938463463374557953744961537, 66, 325136600203383505197750130154966525945, 1, 157731424658257235830472548999435659689, 150710892317665476711550399788014441901, 211566241468480083331919816083842969268);
    assert(211566241468480083331919816083842969268int * 211566241468480083331919816083842969268int == 131538624625527150585749346230641124001int * 340282366920938463463374557953744961537int + 287992193919301995674915573490599906287int) by (nonlinear_arith);
    primality::lemma_power_step(157731424658257235830472548999435659689, 340282366920938463463374557953744961537, 67, 211566241468480083331919816083842969268, 67, 211566241468480083331919816083842969268, 131538624625527150585749346230641124001, 287992193919301995674915573490599906287);
    assert(287992193919301995674915573490599906287int * 287992193919301995674915573490599906287int == 243737295320163005836268895786883431081int * 340282366920938463463374557953744961537int + 290470869138218778913077508362246794872int) by (nonlinear_arith);
    primality::lemma_power_step(157731424658257235830472548999435659689, 340282366920938463463374557953744961537, 134, 287992193919301995674915573490599906287, 134, 287992193919301995674915573490599906287, 243737295320163005836268895786883431081, 290470869138218778913077508362246794872);
    assert(290470869138218778913077508362246794872int * 157731424658257235830472548999435659689int == 134642251449774579451157866665323695564int * 340282366920938463463374557953744961537int + 37754041276540682988225645781304792940int) by (nonlinear_arith);
    primality::lemma_power_step(157731424658257235830472548999435659689, 340282366920938463463374557953744961537, 268, 290470869138218778913077508362246794872, 1, 157731424658257235830472548999435659689, 134642251449774579451157866665323695564, 37754041276540682988225645781304792940);
    assert(37754041276540682988225645781304792940int * 37754041276540682988225645781304792940int == 4188779000241023208402395682931111989int * 340282366920938463463374557953744961537int + 125022283894945067627019946646829276507int) by (nonlinear_arith);
    primality::lemma_power_step(157731424658257235830472548999435659689, 340282366920938463463374557953744961537, 269, 37754041276540682988225645781304792940, 269, 37754041276540682988225645781304792940, 4188779000241023208402395682931111989, 125022283894945067627019946646829276507);
    assert(125022283894945067627019946646829276507int * 125022283894945067627019946646829276507int == 45934121158678383790101463960975195498int * 340282366920938463463374557953744961537int + 230692196565283307002706305317996560623int) by (nonlinear_arith);
    primality::lemma_power_step(157731424658257235830472548999435659689, 340282366920938463463374557953744961537, 538, 125022283894945067627019946646829276507, 538, 125022283894945067627019946646829276507, 45934121158678383790101463960975195498, 230692196565283307002706305317996560623);
    assert(230692196565283307002706305317996560623int * 230692196565283307002706305317996560623int == 156396260075621960919587022834839816900int * 340282366920938463463374557953744961537int + 17150726930805721578213425210691572829int) by (nonlinear_arith);
    primality::lemma_power_step(157731424658257235830472548999435659689, 340282366920938463463374557953744961537, 1076, 230692196565283307002706305317996560623, 1076, 230692196565283307002706305317996560623, 156396260075621960919587022834839816900, 17150726930805721578213425210691572829);
    assert(17150726930805721578213425210691572829int * 17150726930805721578213425210691572829int == 864421618189246778659152195616661903int * 340282366920938463463374557953744961537int + 258202894044528947214153233484742838330int) by (nonlinear_arith);
    primality::lemma_power_step(157731424658257235830472548999435659689, 340282366920938463463374557953744961537, 2152, 17150726930805721578213425210691572829, 2152, 17150726930805721578213425210691572829, 864421618189246778659152195616661903, 258202894044528947214153233484742838330);
    assert(258202894044528947214153233484742838330int * 258202894044528947214153233484742838330int == 195921801932393754563008180766138596640int * 340282366920938463463374557953744961537int + 219389820683845512428373567796559753220int) by (nonlinear_arith);
    primality::lemma_power_step(157731424658257235830472548999435659689, 340282366920938463463374557953744961537, 4304, 258202894044528947214153233484742838330, 4304, 258202894044528947214153233484742838330, 195921801932393754563008180766138596640, 219389820683845512428373567796559753220);
    assert(219389820683845512428373567796559753220int * 219389820683845512428373567796559753220int == 141446922023064742640930635612573091652int * 340282366920938463463374557953744961537int + 165887270612188830925328034669384579276int) by (nonlinear_arith);
    primality::lemma_power_step(157731424658257235830472548999435659689, 340282366920938463463374557953744961537, 8608, 219389820683845512428373567796559753220, 8608, 219389820683845512428373567796559753220, 141446922023064742640930635612573091652, 165887270612188830925328034669384579276);
    assert(165887270612188830925328034669384579276int * 157731424658257235830472548999435659689int == 76893891867190818949162484976139991687int * 340282366920938463463374557953744961537int + 297415350862033340890670855107463262245int) by (nonlinear_arith);
    primality::lemma_power_step(157731424658257235830472548999435659689, 340282366920938463463374557953744961537, 17216, 165887270612188830925328034669384579276, 1, 157731424658257235830472548999435659689, 76893891867190818949162484976139991687, 297415350862033340890670855107463262245);
    assert(297415350862033340890670855107463262245int * 297415350862033340890670855107463262245int == 259948500208176594043991674532294265088int * 340282366920938463463374557953744961537int + 161857959228493005691309345617400519769int) by (nonlinear_arith);
    primality::lemma_power_step(157731424658257235830472548999435659689, 340282366920938463463374557953744961537, 17217, 297415350862033340890670855107463262245, 17217, 297415350862033340890670855107463262245, 259948500208176594043991674532294265088, 161857959228493005691309345617400519769);
    assert(161857959228493005691309345617400519769int * 161857959228493005691309345617400519769int == 76988999467314075490881287900939483878int * 340282366920938463463374557953744961537int + 60793756064773856425840857643618212875int) by (nonlinear_arith);
    primality::lemma_power_step(157731424658257235830472548999435659689, 340282366920938463463374557953744961537, 34434, 161857959228493005691309345617400519769, 34434, 161857959228493005691309345617400519769, 76988999467314075490881287900939483878, 60793756064773856425840857643618212875);
    assert(60793756064773856425840857643618212875int * 157731424658257235830472548999435659689int == 28179790334687791677756424571499696328int * 340282366920938463463374557953744961537int + 57339894497702749065615868825318159739int) by (nonlinear_arith);
    primality::lemma_power_step(157731424658257235830472548999435659689, 340282366920938463463374557953744961537, 68868, 60793756064773856425840857643618212875, 1, 157731424658257235830472548999435659689, 28179790334687791677756424571499696328, 57339894497702749065615868825318159739);
    assert(57339894497702749065615868825318159739int * 57339894497702749065615868825318159739int == 9662162429273296448813207883771159124int * 340282366920938463463374557953744961537int + 265694082433298155159424305740233934533int) by (nonlinear_arith);
    primality::lemma_power_step(157731424658257235830472548999435659689, 340282366920938463463374557953744961537, 68869, 57339894497702749065615868825318159739, 68869, 57339894497702749065615868825318159739, 9662162429273296448813207883771159124, 265694082433298155159424305740233934533);
    assert(265694082433298155159424305740233934533int * 157731424658257235830472548999435659689int == 123157442816334858673139878601328852110int * 340282366920938463463374557953744961537int + 153579567684240196202231230432581847167int) by (nonlinear_arith);
    primality::lemma_power_step(157731424658257235830472548999435659689, 340282366920938463463374557953744961537, 137738, 265694082433298155159424305740233934533, 1, 157731424658257235830472548999435659689, 123157442816334858673139878601328852110, 153579567684240196202231230432581847167);
    assert(153579567684240196202231230432581847167int * 153579567684240196202231230432581847167int == 69315033345698658029642908334544786035int * 340282366920938463463374557953744961537int + 226841313133913661632760138058776190094int) by (nonlinear_arith);
    primality::lemma_power_step(157731424658257235830472548999435659689, 340282366920938463463374557953744961537, 137739, 153579567684240196202231230432581847167, 137739, 153579567684240196202231230432581847167, 69315033345698658029642908334544786035, 226841313133913661632760138058776190094);
    assert(226841313133913661632760138058776190094int * 226841313133913661632760138058776190094int == 151218477201534911872295015799643213215int * 340282366920938463463374557953744961537int + 291631893324694855137292024902758617381int) by (nonlinear_arith);
    primality::lemma_power_step(157731424658257235830472548999435659689, 340282366920938463463374557953744961537, 275478, 226841313133913661632760138058776190094, 275478, 226841313133913661632760138058776190094, 151218477201534911872295015799643213215, 291631893324694855137292024902758617381);
    assert(291631893324694855137292024902758617381int * 291631893324694855137292024902758617381int == 249937021344119792585017210478325378090int * 340282366920938463463374557953744961537int + 231417493962328797886532315036722774831int) by (nonlinear_arith);
    primality::lemma_power_step(157731424658257235830472548999435659689, 340282366920938463463374557953744961537, 550956, 291631893324694855137292024902758617381, 550956, 291631893324694855137292024902758617381, 249937021344119792585017210478325378090, 231417493962328797886532315036722774831);
    assert(231417493962328797886532315036722774831int * 157731424658257235830472548999435659689int == 107269181602943974660501941255752433886int * 340282366920938463463374557953744961537int + 257637556063710348195763073233885044777int) by (nonlinear_arith);
    primality::lemma_power_step(157731424658257235830472548999435659689, 340282366920938463463374557953744961537, 1101912, 231417493962328797886532315036722774831, 1, 157731424658257235830472548999435659689, 107269181602943974660501941255752433886, 257637556063710348195763073233885044777);
    assert(257637556063710348195763073233885044777int * 257637556063710348195763073233885044777int == 195064795437677248958642372461251343524int * 340282366920938463463374557953744961537int + 193755360432696625395544092152340943341int) by (nonlinear_arith);
    primality::lemma_power_step(157731424658257235830472548999435659689, 340282366920938463463374557953744961537, 1101913, 257637556063710348195763073233885044777, 1101913, 257637556063710348195763073233885044777, 195064795437677248958642372461251343524, 193755360432696625395544092152340943341);
    assert(193755360432696625395544092152340943341int * 193755360432696625395544092152340943341int == 110323494091383600828126516476096118919int * 340282366920938463463374557953744961537int + 192193224026024994911312160709139223778int) by (nonlinear_arith);
    primality::lemma_power_step(157731424658257235830472548999435659689, 340282366920938463463374557953744961537, 2203826, 193755360432696625395544092152340943341, 2203826, 193755360432696625395544092152340943341, 110323494091383600828126516476096118919, 192193224026024994911312160709139223778);
    assert(192193224026024994911312160709139223778int * 157731424658257235830472548999435659689int == 89087516669154684273627377933889891229int * 340282366920938463463374557953744961537int + 62550373532642261560355119915106226069int) by (nonlinear_arith);
    primality::lemma_power_step(157731424658257235830472548999435659689, 340282366920938463463374557953744961537, 4407652, 192193224026024994911312160709139223778, 1, 157731424658257235830472548999435659689, 89087516669154684273627377933889891229, 62550373532642261560355119915106226069);
    assert(62550373532642261560355119915106226069int * 62550373532642261560355119915106226069int == 11497948790223735144083591209874381122int * 340282366920938463463374557953744961537int + 207709676177671552859813540444166288247int) by (nonlinear_arith);
    primality::lemma_power_step(157731424658257235830472548999435659689, 340282366920938463463374557953744961537, 4407653, 62550373532642261560355119915106226069, 4407653, 62550373532642261560355119915106226069, 11497948790223735144083591209874381122, 207709676177671552859813540444166288247);
    assert(207709676177671552859813540444166288247int * 157731424658257235830472548999435659689int == 96279873198429476792271132278956161443int * 340282366920938463463374557953744961537int + 219756494270167478199470620791774957292int) by (nonlinear_arith);
    primality::lemma_power_step(157731424658257235830472548999435659689, 340282366920938463463374557953744961537, 8815306, 207709676177671552859813540444166288247, 1, 157731424658257235830472548999435659689, 96279873198429476792271132278956161443, 219756494270167478199470620791774957292);
    assert(219756494270167478199470620791774957292int * 219756494270167478199470620791774957292int == 141920127131167437169402259541380362441int * 340282366920938463463374557953744961537int + 218768987708744064752586401569759541447int) by (nonlinear_arith);
    primality::lemma_power_step(157731424658257235830472548999435659689, 340282366920938463463374557953744961537, 8815307, 219756494270167478199470620791774957292, 8815307, 219756494270167478199470620791774957292, 141920127131167437169402259541380362441, 218768987708744064752586401569759541447);
    assert(218768987708744064752586401569759541447int * 218768987708744064752586401569759541447int == 140647516990583354211904457049361567351int * 340282366920938463463374557953744961537int + 121437522466179753484554493310180875322int) by (nonlinear_arith);
    primality::lemma_power_step(157731424658257235830472548999435659689, 340282366920938463463374557953744961537, 17630614, 218768987708744064752586401569759541447, 17630614, 218768987708744064752586401569759541447, 140647516990583354211904457049361567351, 121437522466179753484554493310180875322);
    assert(121437522466179753484554493310180875322int * 157731424658257235830472548999435659689int == 56290055811237584714299880824441012302int * 340282366920938463463374557953744961537int + 158550043530597388400443541858196466684int) by (nonlinear_arith);
    primality::lemma_power_step(157731424658257235830472548999435659689, 340282366920938463463374557953744961537, 35261228, 121437522466179753484554493310180875322, 1, 157731424658257235830472548999435659689, 56290055811237584714299880824441012302, 158550043530597388400443541858196466684);
    assert(158550043530597388400443541858196466684int * 158550043530597388400443541858196466684int == 73874284262854387629948378187688739209int * 340282366920938463463374557953744961537int + 111634759566155809988519760086193151623int) by (nonlinear_arith);
    primality::lemma_power_step(157731424658257235830472548999435659689, 340282366920938463463374557953744961537, 35261229, 158550043530597388400443541858196466684, 35261229, 158550043530597388400443541858196466684, 73874284262854387629948378187688739209, 111634759566155809988519760086193151623);
    assert(111634759566155809988519760086193151623int * 111634759566155809988519760086193151623int == 36623465553502875420885104089989394457int * 340282366920938463463374557953744961537int + 87470900584333464438593394576081533720int) by (nonlinear_arith);
    primality::lemma_power_step(157731424658257235830472548999435659689, 340282366920938463463374557953744961537, 70522458, 111634759566155809988519760086193151623, 70522458, 111634759566155809988519760086193151623, 36623465553502875420885104089989394457, 87470900584333464438593394576081533720);
    assert(87470900584333464438593394576081533720int * 87470900584333464438593394576081533720int == 22484733835215228816714686519488436718int * 340282366920938463463374557953744961537int + 160081845227445299772129448662328522834int) by (nonlinear_arith);
    primality::lemma_power_step(157731424658257235830472548999435659689, 340282366920938463463374557953744961537, 141044916, 87470900584333464438593394576081533720, 141044916, 87470900584333464438593394576081533720, 22484733835215228816714686519488436718, 160081845227445299772129448662328522834);
    assert(160081845227445299772129448662328522834int * 157731424658257235830472548999435659689int == 74202897253016284071861211772422122430int * 340282366920938463463374557953744961537int + 139681182939672807274364589111434863716int) by (nonlinear_arith);
    primality::lemma_power_step(157731424658257235830472548999435659689, 340282366920938463463374557953744961537, 282089832, 160081845227445299772129448662328522834, 1, 157731424658257235830472548999435659689, 74202897253016284071861211772422122430, 139681182939672807274364589111434863716);
    assert(139681182939672807274364589111434863716int * 139681182939672807274364589111434863716int == 57337184538743694644586132641575365228int * 340282366920938463463374557953744961537int + 315916757665560633679853386937906093220int) by (nonlinear_arith);
    primality::lemma_power_step(157731424658257235830472548999435659689, 340282366920938463463374557953744961537, 282089833, 139681182939672807274364589111434863716, 282089833, 139681182939672807274364589111434863716, 57337184538743694644586132641575365228, 315916757665560633679853386937906093220);
    assert(315916757665560633679853386937906093220int * 315916757665560633679853386937906093220int == 293295825690283217172494650932516575364int * 340282366920938463463374557953744961537int + 204337247774820566543249438050188193932int) by (nonlinear_arith);
    primality::lemma_power_step(157731424658257235830472548999435659689, 340282366920938463463374557953744961537, 564179666, 315916757665560633679853386937906093220, 564179666, 315916757665560633679853386937906093220, 293295825690283217172494650932516575364, 204337247774820566543249438050188193932);
    assert(204337247774820566543249438050188193932int * 157731424658257235830472548999435659689int == 94716648099953398223524216779595632370int * 340282366920938463463374557953744961537int + 58406493641775421967457737889044654458int) by (nonlinear_arith);
    primality::lemma_power_step(157731424658257235830472548999435659689, 340282366920938463463374557953744961537, 1128359332, 204337247774820566543249438050188193932, 1, 157731424658257235830472548999435659689, 94716648099953398223524216779595632370, 58406493641775421967457737889044654458);
    assert(58406493641775421967457737889044654458int * 58406493641775421967457737889044654458int == 10024964062623150425598934036282147694int * 340282366920938463463374557953744961537int + 39812278177945454829742039450836028086int) by (nonlinear_arith);
    primality::lemma_power_step(157731424658257235830472548999435659689, 340282366920938463463374557953744961537, 1128359333, 58406493641775421967457737889044654458, 1128359333, 58406493641775421967457737889044654458, 10024964062623150425598934036282147694, 39812278177945454829742039450836028086);
    assert(39812278177945454829742039450836028086int * 157731424658257235830472548999435659689int == 18454224980036069728718368465708305823int * 340282366920938463463374557953744961537int + 323966343330329253437044889081373895303int) by (nonlinear_arith);
    primality::lemma_power_step(157731424658257235830472548999435659689, 340282366920938463463374557953744961537, 2256718666, 39812278177945454829742039450836028086, 1, 157731424658257235830472548999435659689, 18454224980036069728718368465708305823, 323966343330329253437044889081373895303);
    assert(323966343330329253437044889081373895303int * 323966343330329253437044889081373895303int == 308432648334111090300227377955503237675int * 340282366920938463463374557953744961537int + 2738679614242039771591481961761155334int) by (nonlinear_arith);
    primality::lemma_power_step(157731424658257235830472548999435659689, 340282366920938463463374557953744961537, 2256718667, 323966343330329253437044889081373895303, 2256718667, 323966343330329253437044889081373895303, 308432648334111090300227377955503237675, 2738679614242039771591481961761155334);
    assert(2738679614242039771591481961761155334int * 2738679614242039771591481961761155334int == 22041594741838533527467668246508552int * 340282366920938463463374557953744961537int + 300110339945958822584250378228695087132int) by (nonlinear_arith);
    primality::lemma_power_step(157731424658257235830472548999435659689, 340282366920938463463374557953744961537, 4513437334, 2738679614242039771591481961761155334, 4513437334, 2738679614242039771591481961761155334, 22041594741838533527467668246508552, 300110339945958822584250378228695087132);
    assert(300110339945958822584250378228695087132int * 157731424658257235830472548999435659689int == 139110444959812614902152490113817166493int * 340282366920938463463374557953744961537int + 77837243666275228337245243287144842207int) by (nonlinear_arith);
    primality::lemma_power_step(157731424658257235830472548999435659689, 340282366920938463463374557953744961537, 9026874668, 300110339945958822584250378228695087132, 1, 157731424658257235830472548999435659689, 139110444959812614902152490113817166493, 77837243666275228337245243287144842207);
    assert(77837243666275228337245243287144842207int * 77837243666275228337245243287144842207int == 17804732453182837579204106839818861402int * 340282366920938463463374557953744961537int + 322680093135230589633275506185304735975int) by (nonlinear_arith);
    primality::lemma_power_step(157731424658257235830472548999435659689, 340282366920938463463374557953744961537, 9026874669, 77837243666275228337245243287144842207, 9026874669, 77837243666275228337245243287144842207, 17804732453182837579204106839818861402, 322680093135230589633275506185304735975);
    assert(322680093135230589633275506185304735975int * 157731424658257235830472548999435659689int == 149572225148253014177944413755944314410int * 340282366920938463463374557953744961537int + 288816269265998269031362754590810763605int) by (nonlinear_arith);
    primality::lemma_power_step(157731424658257235830472548999435659689, 340282366920938463463374557953744961537, 18053749338, 322680093135230589633275506185304735975, 1, 157731424658257235830472548999435659689, 149572225148253014177944413755944314410, 288816269265998269031362754590810763605);
}

/// The base to half its order.
proof fn lemma_base_to_half()
    requires
        pow(157731424658257235830472548999435659689int, 18053749339) % 340282366920938463463374557953744961537int == 288816269265998269031362754590810763605int,
    ensures
        pow(157731424658257235830472548999435659689int, 19385065745296654336) % 340282366920938463463374557953744961537int == 340282366920938463463374557953744961536int,
{
    assert(288816269265998269031362754590810763605int * 288816269265998269031362754590810763605int == 245134175324783434557935413263580479084int * 340282366920938463463374557953744961537int + 202477457160817175448865276649579603917int) by (nonlinear_arith);
    primality::lemma_power_step(157731424658257235830472548999435659689, 340282366920938463463374557953744961537, 18053749339, 288816269265998269031362754590810763605, 18053749339, 288816269265998269031362754590810763605, 245134175324783434557935413263580479084, 202477457160817175448865276649579603917);
    assert(202477457160817175448865276649579603917int * 202477457160817175448865276649579603917int == 120479709334559393790030249372571046249int * 340282366920938463463374557953744961537int + 291002859220333128737256428414248618176int) by (nonlinear_arith);
    primality::lemma_power_step(157731424658257235830472548999435659689, 340282366920938463463374557953744961537, 36107498678, 202477457160817175448865276649579603917, 36107498678, 202477457160817175448865276649579603917, 120479709334559393790030249372571046249, 291002859220333128737256428414248618176);
    assert(291002859220333128737256428414248618176int * 291002859220333128737256428414248618176int == 248859983080123203925089655286347129210int * 340282366920938463463374557953744961537int + 262210191456112222089946877103618371206int) by (nonlinear_arith);
    primality::lemma_power_step(157731424658257235830472548999435659689, 340282366920938463463374557953744961537, 72214997356, 291002859220333128737256428414248618176, 72214997356, 291002859220333128737256428414248618176, 248859983080123203925089655286347129210, 262210191456112222089946877103618371206);
    assert(262210191456112222089946877103618371206int * 262210191456112222089946877103618371206int == 202050388697999861801841254803363789527int * 340282366920938463463374557953744961537int + 169373083560288093220735695737231471437int) by (nonlinear_arith);
    primality::lemma_power_step(157731424658257235830472548999435659689, 340282366920938463463374557953744961537, 144429994712, 262210191456112222089946877103618371206, 144429994712, 262210191456112222089946877103618371206, 202050388697999861801841254803363789527, 169373083560288093220735695737231471437);
    assert(169373083560288093220735695737231471437int * 169373083560288093220735695737231471437int == 84304225617972013112818052472229640660int * 340282366920938463463374557953744961537int + 317147576029044052645335895261115550549int) by (nonlinear_arith);
    primality::lemma_power_step(157731424658257235830472548999435659689, 340282366920938463463374557953744961537, 288859989424, 169373083560288093220735695737231471437, 288859989424, 169373083560288093220735695737231471437, 84304225617972013112818052472229640660, 317147576029044052645335895261115550549);
    assert(317147576029044052645335895261115550549int * 317147576029044052645335895261115550549int == 295585651090959213709839342331360541757int * 340282366920938463463374557953744961537int + 171943168142144822891930992597926800892int) by (nonlinear_arith);
    primality::lemma_power_step(157731424658257235830472548999435659689, 340282366920938463463374557953744961537, 577719978848, 317147576029044052645335895261115550549, 577719978848, 317147576029044052645335895261115550549, 295585651090959213709839342331360541757, 171943168142144822891930992597926800892);
    assert(171943168142144822891930992597926800892int * 171943168142144822891930992597926800892int == 86882118924566315143841291568497437410int * 340282366920938463463374557953744961537int + 21541544435346836569580739457897096494int) by (nonlinear_arith);
    primality::lemma_power_step(157731424658257235830472548999435659689, 340282366920938463463374557953744961537, 1155439957696, 171943168142144822891930992597926800892, 1155439957696, 171943168142144822891930992597926800892, 86882118924566315143841291568497437410, 21541544435346836569580739457897096494);
    assert(21541544435346836569580739457897096494int * 21541544435346836569580739457897096494int == 1363685520524892001180828348423097803int * 340282366920938463463374557953744961537int + 129999756949660917902024189910922888825int) by (nonlinear_arith);
    primality::lemma_power_step(157731424658257235830472548999435659689, 340282366920938463463374557953744961537, 2310879915392, 21541544435346836569580739457897096494, 2310879915392, 21541544435346836569580739457897096494, 1363685520524892001180828348423097803, 129999756949660917902024189910922888825);
    assert(129999756949660917902024189910922888825int * 129999756949660917902024189910922888825int == 49664450614619886838548446602897371936int * 340282366920938463463374557953744961537int + 282895836292207208096400573424606654993int) by (nonlinear_arith);
    primality::lemma_power_step(157731424658257235830472548999435659689, 340282366920938463463374557953744961537, 4621759830784, 129999756949660917902024189910922888825, 4621759830784, 129999756949660917902024189910922888825, 49664450614619886838548446602897371936, 282895836292207208096400573424606654993);
    assert(282895836292207208096400573424606654993int * 282895836292207208096400573424606654993int == 235187191495178360676096503325109477072int * 340282366920938463463374557953744961537int + 296306845119133820321445521995708450385int) by (nonlinear_arith);
    primality::lemma_power_step(157731424658257235830472548999435659689, 340282366920938463463374557953744961537, 9243519661568, 282895836292207208096400573424606654993, 9243519661568, 282895836292207208096400573424606654993, 235187191495178360676096503325109477072, 296306845119133820321445521995708450385);
    assert(296306845119133820321445521995708450385int * 296306845119133820321445521995708450385int == 258014387459733909161988607545862459320int * 340282366920938463463374557953744961537int + 273165856257350751056968870452379473385int) by (nonlinear_arith);
    primality::lemma_power_step(157731424658257235830472548999435659689, 340282366920938463463374557953744961537, 18487039323136, 296306845119133820321445521995708450385, 18487039323136, 296306845119133820321445521995708450385, 258014387459733909161988607545862459320, 273165856257350751056968870452379473385);
    assert(273165856257350751056968870452379473385int * 273165856257350751056968870452379473385int == 219287251643423532238130131203928242161int * 340282366920938463463374557953744961537int + 283839073377153370490835339938956596768int) by (nonlinear_arith);
    primality::lemma_power_step(157731424658257235830472548999435659689, 340282366920938463463374557953744961537, 36974078646272, 273165856257350751056968870452379473385, 36974078646272, 273165856257350751056968870452379473385, 219287251643423532238130131203928242161, 283839073377153370490835339938956596768);
    assert(283839073377153370490835339938956596768int * 283839073377153370490835339938956596768int == 236758137968164296433986570517974105205int * 340282366920938463463374557953744961537int + 105008128617997753376638997239831545739int) by (nonlinear_arith);
    primality::lemma_power_step(157731424658257235830472548999435659689, 340282366920938463463374557953744961537, 73948157292544, 283839073377153370490835339938956596768, 73948157292544, 283839073377153370490835339938956596768, 236758137968164296433986570517974105205, 105008128617997753376638997239831545739);
    assert(105008128617997753376638997239831545739int * 105008128617997753376638997239831545739int == 32404579689596183582375582324811201237int * 340282366920938463463374557953744961537int + 212059004665593815414574723988717234852int) by (nonlinear_arith);
    primality::lemma_power_step(157731424658257235830472548999435659689, 340282366920938463463374557953744961537, 147896314585088, 105008128617997753376638997239831545739, 147896314585088, 105008128617997753376638997239831545739, 32404579689596183582375582324811201237, 212059004665593815414574723988717234852);
    assert(212059004665593815414574723988717234852int * 212059004665593815414574723988717234852int == 132152076719892117759204761834908305615int * 340282366920938463463374557953744961537int + 58939217512625066836357447684907331649int) by (nonlinear_arith);
    primality::lemma_power_step(157731424658257235830472548999435659689, 340282366920938463463374557953744961537, 295792629170176, 212059004665593815414574723988717234852, 295792629170176, 212059004665593815414574723988717234852, 132152076719892117759204761834908305615, 58939217512625066836357447684907331649);
    assert(58939217512625066836357447684907331649int * 58939217512625066836357447684907331649int == 10208672851413551887724167944818352728int * 340282366920938463463374557953744961537int + 183662900539509792375083495535218036265int) by (nonlinear_arith);
    primality::lemma_power_step(157731424658257235830472548999435659689, 340282366920938463463374557953744961537, 591585258340352, 58939217512625066836357447684907331649, 591585258340352, 58939217512625066836357447684907331649, 10208672851413551887724167944818352728, 183662900539509792375083495535218036265);
    assert(183662900539509792375083495535218036265int * 183662900539509792375083495535218036265int == 99129617969370732324867680395014240042int * 340282366920938463463374557953744961537int + 115107371550849943973561963938279885671int) by (nonlinear_arith);
    primality::lemma_power_step(157731424658257235830472548999435659689, 340282366920938463463374557953744961537, 1183170516680704, 183662900539509792375083495535218036265, 1183170516680704, 183662900539509792375083495535218036265, 99129617969370732324867680395014240042, 115107371550849943973561963938279885671);
    assert(115107371550849943973561963938279885671int * 115107371550849943973561963938279885671int == 38937389278310353533809834152902788445int * 340282366920938463463374557953744961537int + 143637997944725862918595393408258080276int) by (nonlinear_arith);
    primality::lemma_power_step(157731424658257235830472548999435659689, 340282366920938463463374557953744961537, 2366341033361408, 115107371550849943973561963938279885671, 2366341033361408, 115107371550849943973561963938279885671, 38937389278310353533809834152902788445, 143637997944725862918595393408258080276);
    assert(143637997944725862918595393408258080276int * 143637997944725862918595393408258080276int == 60631629667612782957382272877735943725int * 340282366920938463463374557953744961537int + 196934114662940666259486270002338730851int) by (nonlinear_arith);
    primality::lemma_power_step(157731424658257235830472548999435659689, 340282366920938463463374557953744961537, 4732682066722816, 143637997944725862918595393408258080276, 4732682066722816, 143637997944725862918595393408258080276, 60631629667612782957382272877735943725, 196934114662940666259486270002338730851);
    assert(196934114662940666259486270002338730851int * 196934114662940666259486270002338730851int == 113973127285455706540697980882291376886int * 340282366920938463463374557953744961537int + 154861683792053392940461127428578350419int) by (nonlinear_arith);
    primality::lemma_power_step(157731424658257235830472548999435659689, 340282366920938463463374557953744961537, 9465364133445632, 196934114662940666259486270002338730851, 9465364133445632, 196934114662940666259486270002338730851, 113973127285455706540697980882291376886, 154861683792053392940461127428578350419);
    assert(154861683792053392940461127428578350419int * 154861683792053392940461127428578350419int == 70477178479488966767247227098402156735int * 340282366920938463463374557953744961537int + 246301224039257635126066389490736973866int) by (nonlinear_arith);
    primality::lemma_power_step(157731424658257235830472548999435659689, 340282366920938463463374557953744961537, 18930728266891264, 154861683792053392940461127428578350419, 18930728266891264, 154861683792053392940461127428578350419, 70477178479488966767247227098402156735, 246301224039257635126066389490736973866);
    assert(246301224039257635126066389490736973866int * 246301224039257635126066389490736973866int == 178276334187282128774823373070263626402int * 340282366920938463463374557953744961537int + 112446981247494782863319391933539286082int) by (nonlinear_arith);
    primality::lemma_power_step(157731424658257235830472548999435659689, 340282366920938463463374557953744961537, 37861456533782528, 246301224039257635126066389490736973866, 37861456533782528, 246301224039257635126066389490736973866, 178276334187282128774823373070263626402, 112446981247494782863319391933539286082);
    assert(112446981247494782863319391933539286082int * 112446981247494782863319391933539286082int == 37158327379955711344589089668493281057int * 340282366920938463463374557953744961537int + 136257249355923752058795611038843206115int) by (nonlinear_arith);
    primality::lemma_power_step(157731424658257235830472548999435659689, 340282366920938463463374557953744961537, 75722913067565056, 112446981247494782863319391933539286082, 75722913067565056, 112446981247494782863319391933539286082, 37158327379955711344589089668493281057, 136257249355923752058795611038843206115);
    assert(136257249355923752058795611038843206115int * 136257249355923752058795611038843206115int == 54560681971381829186595716979024151607int * 340282366920938463463374557953744961537int + 317382179358537364646726782080101653266int) by (nonlinear_arith);
    primality::lemma_power_step(157731424658257235830472548999435659689, 340282366920938463463374557953744961537, 151445826135130112, 136257249355923752058795611038843206115, 151445826135130112, 136257249355923752058795611038843206115, 54560681971381829186595716979024151607, 317382179358537364646726782080101653266);
    assert(317382179358537364646726782080101653266int * 317382179358537364646726782080101653266int == 296023119522319603170446313356706080260int * 340282366920938463463374557953744961537int + 192007975586228866417180181358753507136int) by (nonlinear_arith);
    primality::lemma_power_step(157731424658257235830472548999435659689, 340282366920938463463374557953744961537, 302891652270260224, 317382179358537364646726782080101653266, 302891652270260224, 317382179358537364646726782080101653266, 296023119522319603170446313356706080260, 192007975586228866417180181358753507136);
    assert(192007975586228866417180181358753507136int * 192007975586228866417180181358753507136int == 108342559805009201810260387437193174047int * 340282366920938463463374557953744961537int + 177163815491556666773578150685041292257int) by (nonlinear_arith);
    primality::lemma_power_step(157731424658257235830472548999435659689, 340282366920938463463374557953744961537, 605783304540520448, 192007975586228866417180181358753507136, 605783304540520448, 192007975586228866417180181358753507136, 108342559805009201810260387437193174047, 177163815491556666773578150685041292257);
    assert(177163815491556666773578150685041292257int * 177163815491556666773578150685041292257int == 92238154458408431751016968037385413980int * 340282366920938463463374557953744961537int + 207780475876815746145724302740566066789int) by (nonlinear_arith);
    primality::lemma_power_step(157731424658257235830472548999435659689, 340282366920938463463374557953744961537, 1211566609081040896, 177163815491556666773578150685041292257, 1211566609081040896, 177163815491556666773578150685041292257, 92238154458408431751016968037385413980, 207780475876815746145724302740566066789);
    assert(207780475876815746145724302740566066789int * 207780475876815746145724302740566066789int == 126873239263751810723865741054991764016int * 340282366920938463463374557953744961537int + 215461094455166043855249150037908117929int) by (nonlinear_arith);
    primality::lemma_power_step(157731424658257235830472548999435659689, 340282366920938463463374557953744961537, 2423133218162081792, 207780475876815746145724302740566066789, 2423133218162081792, 207780475876815746145724302740566066789, 126873239263751810723865741054991764016, 215461094455166043855249150037908117929);
    assert(215461094455166043855249150037908117929int * 215461094455166043855249150037908117929int == 136426355687728189081710563348995007059int * 340282366920938463463374557953744961537int + 227605400907528469561203326827972759358int) by (nonlinear_arith);
    primality::lemma_power_step(157731424658257235830472548999435659689, 340282366920938463463374557953744961537, 4846266436324163584, 215461094455166043855249150037908117929, 4846266436324163584, 215461094455166043855249150037908117929, 136426355687728189081710563348995007059, 227605400907528469561203326827972759358);
    assert(227605400907528469561203326827972759358int * 227605400907528469561203326827972759358int == 152238915554249110003773541846779319044int * 340282366920938463463374557953744961537int + 340282366920938463463374557953744961536int) by (nonlinear_arith);
    primality::lemma_power_step(157731424658257235830472548999435659689, 340282366920938463463374557953744961537, 9692532872648327168, 227605400907528469561203326827972759358, 9692532872648327168, 227605400907528469561203326827972759358, 152238915554249110003773541846779319044, 340282366920938463463374557953744961536);
}

/// The base of 18053749339, to its order.
proof fn lemma_power_in_18053749339()
    ensures
        pow(10187938394int, 19165339) % 18053749339int == 1int,
{
    lemma_pow1(10187938394int);
    assert(10187938394int * 10187938394int == 5749170810int * 18053749339int + 9103704646int) by (nonlinear_arith);
    primality::lemma_power_step(10187938394, 18053749339, 1, 10187938394, 1, 10187938394, 5749170810, 9103704646);
    assert(9103704646int * 9103704646int == 4590594270int * 18053749339int + 13972297786int) by (nonlinear_arith);
    primality::lemma_power_step(10187938394, 18053749339, 2, 9103704646, 2, 9103704646, 4590594270, 13972297786);
    assert(13972297786int * 13972297786int == 10813549127int * 18053749339int + 16840224743int) by (nonlinear_arith);
    primality::lemma_power_step(10187938394, 18053749339, 4, 13972297786, 4, 13972297786, 10813549127, 16840224743);
    assert(16840224743int * 10187938394int == 9503132507int * 18053749339int + 6117819869int) by (nonlinear_arith);
    primality::lemma_power_step(10187938394, 18053749339, 8, 16840224743, 1, 10187938394, 9503132507, 6117819869);
    assert(6117819869int * 6117819869int == 2073127262int * 18053749339int + 13535797343int) by (nonlinear_arith);
    primality::lemma_power_step(10187938394, 18053749339, 9, 6117819869, 9, 6117819869, 2073127262, 13535797343);
    assert(13535797343int * 13535797343int == 10148463140int * 18053749339int + 5124995189int) by (nonlinear_arith);
    primality::lemma_power_step(10187938394, 18053749339, 18, 13535797343, 18, 13535797343, 10148463140, 5124995189);
    assert(5124995189int * 5124995189int == 1454854345int * 18053749339int + 17888117766int) by (nonlinear_arith);
    primality::lemma_power_step(10187938394, 18053749339, 36, 5124995189, 36, 5124995189, 1454854345, 17888117766);
    assert(17888117766int * 10187938394int == 10094470592int * 18053749339int + 6749969116int) by (nonlinear_arith);
    primality::lemma_power_step(10187938394, 18053749339, 72, 17888117766, 1, 10187938394, 10094470592, 6749969116);
    assert(6749969116int * 6749969116int == 2523690908int * 18053749339int + 4808511644int) by (nonlinear_arith);
    primality::lemma_power_step(10187938394, 18053749339, 73, 6749969116, 73, 6749969116, 2523690908, 4808511644);
    assert(4808511644int * 4808511644int == 1280719245int * 18053749339int + 7620253681int) by (nonlinear_arith);
    primality::lemma_power_step(10187938394, 18053749339, 146, 4808511644, 146, 4808511644, 1280719245, 7620253681);
    assert(7620253681int * 7620253681int == 3216410346int * 18053749339int + 4743788467int) by (nonlinear_arith);
    primality::lemma_power_step(10187938394, 18053749339, 292, 7620253681, 292, 7620253681, 3216410346, 4743788467);
    assert(4743788467int * 4743788467int == 1246473992int * 18053749339int + 10491518801int) by (nonlinear_arith);
    primality::lemma_power_step(10187938394, 18053749339, 584, 4743788467, 584, 4743788467, 1246473992, 10491518801);
    assert(10491518801int * 10187938394int == 5920484725int * 18053749339int + 13552398819int) by (nonlinear_arith);
    primality::lemma_power_step(10187938394, 18053749339, 1168, 10491518801, 1, 10187938394, 5920484725, 13552398819);
    assert(13552398819int * 13552398819int == 10173372317int * 18053749339int + 5792946298int) by (nonlinear_arith);
    primality::lemma_power_step(10187938394, 18053749339, 1169, 13552398819, 1169, 13552398819, 10173372317, 5792946298);
    assert(5792946298int * 10187938394int == 3269026222int * 18053749339int + 9168198154int) by (nonlinear_arith);
    primality::lemma_power_step(10187938394, 18053749339, 2338, 5792946298, 1, 10187938394, 3269026222, 9168198154);
    assert(9168198154int * 9168198154int == 4655867089int * 18053749339int + 10503403545int) by (nonlinear_arith);
    primality::lemma_power_step(10187938394, 18053749339, 2339, 9168198154, 2339, 9168198154, 4655867089, 10503403545);
    assert(10503403545int * 10187938394int == 5927191423int * 18053749339int + 8668487333int) by (nonlinear_arith);
    primality::lemma_power_step(10187938394, 18053749339, 4678, 10503403545, 1, 10187938394, 5927191423, 8668487333);
    assert(8668487333int * 8668487333int == 4162164392int * 18053749339int + 1502116001int) by (nonlinear_arith);
    primality::lemma_power_step(10187938394, 18053749339, 4679, 8668487333, 4679, 8668487333, 4162164392, 1502116001);
    assert(1502116001int * 1502116001int == 124979716int * 18053749339int + 15336824277int) by (nonlinear_arith);
    primality::lemma_power_step(10187938394, 18053749339, 9358, 1502116001, 9358, 1502116001, 124979716, 15336824277);
    assert(15336824277int * 15336824277int == 13028771724int * 18053749339int + 3429682293int) by (nonlinear_arith);
    primality::lemma_power_step(10187938394, 18053749339, 18716, 15336824277, 18716, 15336824277, 13028771724, 3429682293);
    assert(3429682293int * 3429682293int == 651538935int * 18053749339int + 13828723884int) by (nonlinear_arith);
    primality::lemma_power_step(10187938394, 18053749339, 37432, 3429682293, 37432, 3429682293, 651538935, 13828723884);
    assert(13828723884int * 13828723884int == 10592459254int * 18053749339int + 4625112350int) by (nonlinear_arith);
    primality::lemma_power_step(10187938394, 18053749339, 74864, 13828723884, 74864, 13828723884, 10592459254, 4625112350);
    assert(4625112350int * 10187938394int == 2610004094int * 18053749339int + 288772034int) by (nonlinear_arith);
    primality::lemma_power_step(10187938394, 18053749339, 149728, 4625112350, 1, 10187938394, 2610004094, 288772034);
    assert(288772034int * 288772034int == 4618945int * 18053749339int + 12379869801int) by (nonlinear_arith);
    primality::lemma_power_step(10187938394, 18053749339, 149729, 288772034, 149729, 288772034, 4618945, 12379869801);
    assert(12379869801int * 12379869801int == 8489160529int * 18053749339int + 613139270int) by (nonlinear_arith);
    primality::lemma_power_step(10187938394, 18053749339, 299458, 12379869801, 299458, 12379869801, 8489160529, 613139270);
    assert(613139270int * 613139270int == 20823362int * 18053749339int + 6472875182int) by (nonlinear_arith);
    primality::lemma_power_step(10187938394, 18053749339, 598916, 613139270, 598916, 613139270, 20823362, 6472875182);
    assert(6472875182int * 10187938394int == 3652717911int * 18053749339int + 14997826879int) by (nonlinear_arith);
    primality::lemma_power_step(10187938394, 18053749339, 1197832, 6472875182, 1, 10187938394, 3652717911, 14997826879);
    assert(14997826879int * 14997826879int == 12459174372int * 18053749339int + 9474140533int) by (nonlinear_arith);
    primality::lemma_power_step(10187938394, 18053749339, 1197833, 14997826879, 1197833, 14997826879, 12459174372, 9474140533);
    assert(9474140533int * 10187938394int == 5346366467int * 18053749339int + 16649308689int) by (nonlinear_arith);
    primality::lemma_power_step(10187938394, 18053749339, 2395666, 9474140533, 1, 10187938394, 5346366467, 16649308689);
    assert(16649308689int * 16649308689int == 15354122549int * 18053749339int + 1677153610int) by (nonlinear_arith);
    primality::lemma_power_step(10187938394, 18053749339, 2395667, 16649308689, 2395667, 16649308689, 15354122549, 1677153610);
    assert(1677153610int * 1677153610int == 155803881int * 18053749339int + 17918647441int) by (nonlinear_arith);
    primality::lemma_power_step(10187938394, 18053749339, 4791334, 1677153610, 4791334, 1677153610, 155803881, 17918647441);
    assert(17918647441int * 10187938394int == 10111698839int * 18053749339int + 1950432333int) by (nonlinear_arith);
    primality::lemma_power_step(10187938394, 18053749339, 9582668, 17918647441, 1, 10187938394, 10111698839, 1950432333);
    assert(1950432333int * 1950432333int == 210714473int * 18053749339int + 7970339542int) by (nonlinear_arith);
    primality::lemma_power_step(10187938394, 18053749339, 9582669, 1950432333, 9582669, 1950432333, 210714473, 7970339542);
    assert(7970339542int * 10187938394int == 4497754273int * 18053749339int + 1int) by (nonlinear_arith);
    primality::lemma_power_step(10187938394, 18053749339, 19165338, 7970339542, 1, 10187938394, 4497754273, 1);
}

/// The base of 19165339, to its order.
proof fn lemma_power_in_19165339()
    ensures
        pow(3829045int, 56039) % 19165339int == 1int,
{
    lemma_pow1(3829045int);
    assert(3829045int * 3829045int == 765005int * 19165339int + 5450330int) by (nonlinear_arith);
    primality::lemma_power_step(3829045, 19165339, 1, 3829045, 1, 3829045, 765005, 5450330);
    assert(5450330int * 3829045int == 1088921int * 19165339int + 18725631int) by (nonlinear_arith);
    primality::lemma_power_step(3829045, 19165339, 2, 5450330, 1, 3829045, 1088921, 18725631);
    assert(18725631int * 18725631int == 18296011int * 19165339int + 3185432int) by (nonlinear_arith);
    primality::lemma_power_step(3829045, 19165339, 3, 18725631, 3, 18725631, 18296011, 3185432);
    assert(3185432int * 3185432int == 529444int * 19165339int + 3285108int) by (nonlinear_arith);
    primality::lemma_power_step(3829045, 19165339, 6, 3185432, 6, 3185432, 529444, 3285108);
    assert(3285108int * 3829045int == 656332int * 19165339int + 1085312int) by (nonlinear_arith);
    primality::lemma_power_step(3829045, 19165339, 12, 3285108, 1, 3829045, 656332, 1085312);
    assert(1085312int * 1085312int == 61460int * 19165339int + 402404int) by (nonlinear_arith);
    primality::lemma_power_step(3829045, 19165339, 13, 1085312, 13, 1085312, 61460, 402404);
    assert(402404int * 3829045int == 80396int * 19165339int + 6429936int) by (nonlinear_arith);
    primality::lemma_power_step(3829045, 19165339, 26, 402404, 1, 3829045, 80396, 6429936);
    assert(6429936int * 6429936int == 2157231int * 19165339int + 13547787int) by (nonlinear_arith);
    primality::lemma_power_step(3829045, 19165339, 27, 6429936, 27, 6429936, 2157231, 13547787);
    assert(13547787int * 13547787int == 9576795int * 19165339int + 9888864int) by (nonlinear_arith);
    primality::lemma_power_step(3829045, 19165339, 54, 13547787, 54, 13547787, 9576795, 9888864);
    assert(9888864int * 3829045int == 1975697int * 19165339int + 2488597int) by (nonlinear_arith);
    primality::lemma_power_step(3829045, 19165339, 108, 9888864, 1, 3829045, 1975697, 2488597);
    assert(2488597int * 2488597int == 323141int * 19165339int + 8218610int) by (nonlinear_arith);
    primality::lemma_power_step(3829045, 19165339, 109, 2488597, 109, 2488597, 323141, 8218610);
    assert(8218610int * 8218610int == 3524359int * 19165339int + 15339399int) by (nonlinear_arith);
    primality::lemma_power_step(3829045, 19165339, 218, 8218610, 218, 8218610, 3524359, 15339399);
    assert(15339399int * 3829045int == 3064660int * 19165339int + 1224215int) by (nonlinear_arith);
    primality::lemma_power_step(3829045, 19165339, 436, 15339399, 1, 3829045, 3064660, 1224215);
    assert(1224215int * 1224215int == 78198int * 19165339int + 11187103int) by (nonlinear_arith);
    primality::lemma_power_step(3829045, 19165339, 437, 1224215, 437, 1224215, 78198, 11187103);
    assert(11187103int * 3829045int == 2235072int * 19165339int + 8237227int) by (nonlinear_arith);
    primality::lemma_power_step(3829045, 19165339, 874, 11187103, 1, 3829045, 2235072, 8237227);
    assert(8237227int * 8237227int == 3540344int * 19165339int + 15712913int) by (nonlinear_arith);
    primality::lemma_power_step(3829045, 19165339, 875, 8237227, 875, 8237227, 3540344, 15712913);
    assert(15712913int * 3829045int == 3139284int * 19165339int + 8880809int) by (nonlinear_arith);
    primality::lemma_power_step(3829045, 19165339, 1750, 15712913, 1, 3829045, 3139284, 8880809);
    assert(8880809int * 8880809int == 4115177int * 19165339int + 6244478int) by (nonlinear_arith);
    primality::lemma_power_step(3829045, 19165339, 1751, 8880809, 1751, 8880809, 4115177, 6244478);
    assert(6244478int * 6244478int == 2034584int * 19165339int + 13408508int) by (nonlinear_arith);
    primality::lemma_power_step(3829045, 19165339, 3502, 6244478, 3502, 6244478, 2034584, 13408508);
    assert(13408508int * 13408508int == 9380897int * 19165339int + 15656981int) by (nonlinear_arith);
    primality::lemma_power_step(3829045, 19165339, 7004, 13408508, 7004, 13408508, 9380897, 15656981);
    assert(15656981int * 3829045int == 3128109int * 19165339int + 15399194int) by (nonlinear_arith);
    primality::lemma_power_step(3829045, 19165339, 14008, 15656981, 1, 3829045, 3128109, 15399194);
    assert(15399194int * 15399194int == 12373127int * 19165339int + 2404583int) by (nonlinear_arith);
    primality::lemma_power_step(3829045, 19165339, 14009, 15399194, 14009, 15399194, 12373127, 2404583);
    assert(2404583int * 3829045int == 480411int * 19165339int + 16838906int) by (nonlinear_arith);
    primality::lemma_power_step(3829045, 19165339, 28018, 2404583, 1, 3829045, 480411, 16838906);
    assert(16838906int * 16838906int == 14794872int * 19165339int + 17935228int) by (nonlinear_arith);
    primality::lemma_power_step(3829045, 19165339, 28019, 16838906, 28019, 16838906, 14794872, 17935228);
    assert(17935228int * 3829045int == 3583281int * 19165339int + 1int) by (nonlinear_arith);
    primality::lemma_power_step(3829045, 19165339, 56038, 17935228, 1, 3829045, 3583281, 1);
}

/// 103 is prime.
proof fn lemma_103_is_prime()
    ensures
        primality::is_prime(103),
{
    assert forall|d: int| d > 1 && #[trigger] (103int % d) == 0 implies d >= 11 by {
        assert(d == 2 || d == 3 || d == 4 || d == 5 || d == 6 || d == 7 || d == 8 || d == 9 || d
            == 10 || d >= 11);
    }
    primality::lemma_large_divisors(103, 11);
}

/// 14009 is prime.
proof fn lemma_14009_is_prime()
    ensures
        primality::is_prime(14009),
{
    lemma_103_is_prime();
    lemma_power_in_14009();
    lemma2_to64();
    lemma_pow1(3872);
    assert(3872int * 3872int == 1070int * 14009int + 2754int) by (nonlinear_arith);
    primality::lemma_power_step(3872, 14009, 1, 3872, 1, 3872, 1070, 2754);
    assert(8325int * (2754int - 1) == 1636int * 14009int + 1) by (nonlinear_arith);
    assert(103nat * pow2(1) == 206nat && 206 * 206 > 14009);
    assert(103nat * pow2(0) == 103nat);
    primality::lemma_two_part_order(14009, 3872, 103, 1, 8325, 1636);
}

/// 28019 is prime.
proof fn lemma_28019_is_prime()
    ensures
        primality::is_prime(28019),
{
    lemma_14009_is_prime();
    lemma_power_in_28019();
    assert(9340int * (4int - 1) == 1int * 28019int + 1) by (nonlinear_arith);
    primality::lemma_prime_order(28019, 4, 14009, 9340, 1);
}

/// 56039 is prime.
proof fn lemma_56039_is_prime()
    ensures
        primality::is_prime(56039),
{
    lemma_28019_is_prime();
    lemma_power_in_56039();
    assert(18680int * (4int - 1) == 1int * 56039int + 1) by (nonlinear_arith);
    primality::lemma_prime_order(56039, 4, 28019, 18680, 1);
}

/// 19165339 is prime.
proof fn lemma_19165339_is_prime()
    ensures
        primality::is_prime(19165339),
{
    lemma_56039_is_prime();
    lemma_power_in_19165339();
    assert(187662int * (3829045int - 1) == 37493int * 19165339int + 1) by (nonlinear_arith);
    primality::lemma_prime_order(19165339, 3829045, 56039, 187662, 37493);
}

/// 18053749339 is prime.
proof fn lemma_18053749339_is_prime()
    ensures
        primality::is_prime(18053749339),
{
    lemma_19165339_is_prime();
    lemma_power_in_18053749339();
    assert(15180090882int * (10187938394int - 1) == 8566299875int * 18053749339int + 1) by (nonlinear_arith);
    primality::lemma_prime_order(18053749339, 10187938394, 19165339, 15180090882, 8566299875);
}

/// The field's modulus is prime.
pub proof fn law_modulus_is_prime()
    ensures
        primality::is_prime(field::p()),
{
    lemma_18053749339_is_prime();
    lemma_base_to_two_part();
    lemma_base_to_prime_part();
    lemma_base_to_half();
    assert(pow2(31) == 2147483648 && pow2(30) == 1073741824) by {
        lemma2_to64();
    }
    assert(321093139406819062634586787340523779551int * (40664971873991271173740595132179155414int - 1) == 38371789878679162141494254894697490826int * 340282366920938463463374557953744961537int + 1) by (nonlinear_arith);
    assert((18053749339int * 2147483648int) * (18053749339int * 2147483648int) > 340282366920938463463374557953744961537int) by (nonlinear_arith);
    assert(18053749339nat * pow2(30) == 19385065745296654336nat);
    assert(18053749339nat * pow2(31) == 38770131490593308672nat);
    primality::lemma_two_part_order(
        340282366920938463463374557953744961537,
        157731424658257235830472548999435659689,
        18053749339,
        31,
        321093139406819062634586787340523779551,
        38371789878679162141494254894697490826,
    );
}

} // verus!
