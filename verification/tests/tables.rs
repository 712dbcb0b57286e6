use wineswap::asset::TokenNumber;
use wineswap::decimal::Decimal;
use wineswap::liquidity::{compute_liquidity, get_token_amount_from_liquidity};
use wineswap::swap::{compute_swap_tick, compute_swap_tick_reverse};
use wineswap::tick::get_tick_price_sqrt;
use wineswap::u256::U256;

fn token_number(n: u8) -> TokenNumber {
    if n == 0 {
        TokenNumber::Token0
    } else {
        TokenNumber::Token1
    }
}

#[test]
fn forward_step_values() {
    let cases: Vec<(i32, u16, U256, u128, u8, u128, u128, Option<(u128, u128, u128, U256, i32)>)> = vec![
        (-17, 100, U256::from_words(0x0, 0xeb23e07b8ffaab0edd10a449b3fea108), 1000000, 1, 4112490036746326445370140, 2000000000000000000, Some((0, 0, 0, U256::from_words(0x0, 0x0), 0))),
        (4, 1, U256::from_words(0x1, 0x10629e5b216fe96cfa52d624c9ad8b), 1000000000000000, 1, 0, 246790996519814592, Some((0, 0, 0, U256::from_words(0x0, 0x0), 0))),
        (-7, 65535, U256::from_words(0x0, 0xc46326f714a20fe69aa5b28af), 100000000000000000000, 0, 366520739627, 1000000000000000000, Some((366520739627, 0, 0, U256::from_words(0x0, 0xc46326f714a20f5260b59f31d), -7))),
        (34, 10, U256::from_words(0x1, 0x4826e1cdd30343777138cc6408defbd), 1000000000000000, 0, 1000, 10000000000000000, Some((1000, 1035, 10, U256::from_words(0x1, 0x4826e1cdc0cde605da991e52fdb6b90), 34))),
        (9, 65535, U256::from_words(0x9a7750e1e02b, 0x174812eb251f223ea35a9f00a035935a), 1000, 0, 7, 3000000000000000, Some((0, 163424715200511595, 490274145601534, U256::from_words(0x5d508c9082b, 0x7ed83a1ecb7f36a37fa680f9be212148), 8))),
        (-27, 2000, U256::from_words(0x0, 0x130439dba7a97de9373128fa17d94c03), 0, 0, 1000, 3000000000000000, Some((0, 0, 0, U256::from_words(0x0, 0x0), 0))),
        (-17, 100, U256::from_words(0x0, 0xeb931fec62ed1431ab5adb826b4721d3), 5, 1, 9804605923124054536133021, 0, Some((0, 0, 0, U256::from_words(0x0, 0xec519848204f0db1a58439c2205a7375), -16))),
        (-36, 20000, U256::from_words(0x0, 0x1f9d14c3dc8fc94b70af), 411021309044092017705630, 1, 1, 3000000000000000, None),
        (-18, 10, U256::from_words(0x0, 0xfdd4883d638c8c018268b05342ef0cd6), 10000000000, 0, 1000000, 0, Some((1000000, 983021, 0, U256::from_words(0x0, 0xfdce1700b624530a0f199207602895fc), -18))),
        (-25, 10, U256::from_words(0x0, 0xfcf24e7eeac97dc5985c89ce95525db5), 606110540279627229366085, 0, 4878500717377089781428862, 10000000000000000, Some((0, 0, 0, U256::from_words(0x0, 0x0), 0))),
        (12, 75, U256::from_words(0x1, 0xcc9de58358f43def8708f425f7ab4c2), 10000000000, 0, 71705815578, 743299287764223637, Some((35781066, 39297629, 29209899, U256::from_words(0x1, 0xbc853dd392803bb231dbea55b7efdf7), 11))),
        (-31, 10, U256::from_words(0x0, 0xfc3058308d363691612c65e5eff420c9), 1000, 1, 7, 0, Some((0, 0, 0, U256::from_words(0x0, 0x0), 0))),
        (9, 20000, U256::from_words(0x55ff, 0x74bf991114d22f9b287b822d849ea4b7), 1000000000000000, 0, 1000, 10000000000000000, Some((0, 0, 0, U256::from_words(0x0, 0x0), 0))),
        (37, 1, U256::from_words(0x1, 0x7c8b214ea4f56cc2c519bb1ebddc67), 5, 0, 8195906541278270407298428, 3000000000000000, Some((0, 0, 0, U256::from_words(0x1, 0x795905cd1f171196fed50fda4dc513), 36))),
        (20, 1, U256::from_words(0x1, 0x435b6c20d987eb8d43a3bd29b36e16), 1000000, 0, 7, 750598807099756795, Some((7, 6, 4, U256::from_words(0x1, 0x42ea3bb03b1fe7901b24a9272c0fc4), 20))),
        (24, 1, U256::from_words(0x1, 0x51f795355d3312966ae4c756ced022), 0, 1, 1000, 2000000000000000000, Some((0, 0, 0, U256::from_words(0x0, 0x0), 0))),
        (0, 20000, U256::from_words(0x2, 0xb7d86955784ea2f67b4f3b877e2a5813), 0, 0, 379078308372, 1000000000000000000, Some((0, 0, 0, U256::from_words(0x0, 0x0), 0))),
        (39, 1, U256::from_words(0x1, 0x7fe9d9cba1adc7393cdc67a301075e), 1000000000000000, 0, 1, 3000000000000000, Some((0, 0, 0, U256::from_words(0x0, 0x0), 0))),
        (38, 75, U256::from_words(0x1, 0x2805ded60d5757737b5b641270740925), 100000000000000000000, 0, 340282366920938463463374607431768211455, 0, Some((239586463206341882, 319471069570342186, 0, U256::from_words(0x1, 0x2734807c1808eff38ba03825c27bfa9d), 37))),
        (35, 2000, U256::from_words(0x24, 0x97763ad3682f2ea066dda74056adb7d3), 1000000000000000, 0, 1, 3000000000000000, Some((1, 215, 0, U256::from_words(0x24, 0x97763ad367f26fa576481fa8f0ffd4be), 35))),
        (-20, 75, U256::from_words(0x0, 0xed96146e9a9b1843b2383a9b5908fb75), 1, 1, 1000, 0, Some((0, 0, 0, U256::from_words(0x0, 0xee653eab385c45c189153175931ce6ba), -19))),
        (-22, 20000, U256::from_words(0x0, 0x1330af4e410b85f7fdf0931b0), 100000000000000000000, 0, 340282366920938463463374607431768211455, 0, Some((0, 0, 0, U256::from_words(0x0, 0x1330af4e410b85f7fdf0931b0), -23))),
        (12, 65535, U256::from_words(0x1a740b155c3dd54, 0x3a1d4a5d57ce0a4e8bf96212ccb03bae), 10000000000, 0, 1000, 0, Some((0, 0, 0, U256::from_words(0x0, 0x0), 0))),
        (15, 20000, U256::from_words(0x53595a, 0x3c23f8d99e478d94f9174db37116b592), 10000000000, 0, 340282366920938463463374607431768211455, 0, Some((1231, 21957955429837255, 0, U256::from_words(0x31d806, 0xb122fd9a5922b8363ed16dc152dbf575), 14))),
        (37, 1, U256::from_words(0x1, 0x7c3ae74430b566fd23ea1f753572b3), 1000, 0, 454941548180, 1000000000000000000, Some((0, 0, 0, U256::from_words(0x1, 0x795905cd1f171196fed50fda4dc513), 36))),
        (-1, 1, U256::from_words(0x0, 0xfffcb933bd6fad37aa2d162d1a594000), 100000000000000000000, 1, 0, 99410392615673047, Some((0, 0, 0, U256::from_words(0x0, 0x0), 0))),
        (-15, 2000, U256::from_words(0x0, 0x3c8ae1c62f927d6516d6d22c7dcc04f0), 1000000, 1, 0, 10000000000000000, Some((0, 0, 0, U256::from_words(0x0, 0x3c8ae1c62f927d6516d6d22c7dcc04f0), -15))),
        (23, 2000, U256::from_words(0xb, 0x598355e97d31595883950ca962db38c), 95451762418950070292851, 0, 1, 10000000000000000, Some((0, 0, 0, U256::from_words(0x0, 0x0), 0))),
        (-23, 2000, U256::from_words(0x0, 0x19bb8c4bc7e938f86ca505a51c2e4782), 0, 1, 31268352948, 406711214458895269, Some((0, 0, 0, U256::from_words(0x0, 0x0), 0))),
        (12, 75, U256::from_words(0x1, 0xcc9de58358f43def8708f425f7ab4c3), 1000000000000000, 0, 7, 3000000000000000, Some((0, 0, 0, U256::from_words(0x0, 0x0), 0))),
        (-37, 10, U256::from_words(0x0, 0xfb6ef69da5cedabdc707b96fe3e22f88), 340282366920938463463374607431768211455, 0, 340282366920938463463374607431768211455, 0, Some((173265947585119519118797182482147027, 167056070617536299422075639599825591, 0, U256::from_words(0x0, 0xfb4eca1d9926bd2ac54d939df364acd1), -38))),
        (21, 75, U256::from_words(0x1, 0x14f955ac482c44edfc49d4b1aec215f7), 1000000000000000, 0, 1000, 10000000000000000, Some((0, 0, 0, U256::from_words(0x0, 0x0), 0))),
        (8, 1, U256::from_words(0x1, 0x1ba97a88aa6a61e36e18366c713915), 1000, 1, 528310945793, 2000000000000000000, Some((0, 0, 0, U256::from_words(0x1, 0x1d7f118a4175c0830dc734dc36e4a2), 9))),
        (-34, 2000, U256::from_words(0x0, 0x9106a35fbbfec5d61e8565ea1a4c74c), 1, 0, 5572923237200904277818063, 131495569243559161, Some((2, 0, 0, U256::from_words(0x0, 0x88b85becb5d609982903db793b99709), -35))),
        (38, 2000, U256::from_words(0x2c, 0xb1544e0fc76786ea12014b22ffe6d365), 1, 0, 7380839475010931853310767, 1000000000000000000, Some((0, 0, 0, U256::from_words(0x2c, 0xb1544e0fc76786ea12014b22ffe6d365), 37))),
        (-22, 2000, U256::from_words(0x0, 0x1c5e6501670d1c96cd83eaa0c488b307), 0, 1, 340282366920938463463374607431768211455, 0, Some((0, 0, 0, U256::from_words(0x0, 0x0), 0))),
        (-24, 1, U256::from_words(0x0, 0xffb2ff4d5f00f63eeb7a540d3ebb039b), 0, 0, 7, 1000000000000000000, Some((0, 0, 0, U256::from_words(0x0, 0x0), 0))),
        (14, 75, U256::from_words(0x1, 0xecfdb4f1fa490d89728b9df559b3eba), 100000000000000000000, 1, 1, 3000000000000000, Some((0, 0, 0, U256::from_words(0x0, 0x0), 0))),
        (31, 75, U256::from_words(0x1, 0x207ef65f8b27cb9c62792d313dcfeaed), 10000000000, 1, 340282366920938463463374607431768211455, 0, Some((5527947, 4350622, 0, U256::from_words(0x1, 0x20a330ba871d945bfac80a8c374844fe), 32))),
        (-32, 1, U256::from_words(0x0, 0xff9a80c1ada7480b1daa871d7c4d9b37), 1, 0, 1000000, 0, Some((0, 0, 0, U256::from_words(0x0, 0x0), 0))),
    ];
    for (tick_index, tick_space, price, liquidity, offered, offer, fee, expected) in cases {
        let step =
            compute_swap_tick(tick_index, tick_space, price, liquidity, &token_number(offered), offer, Decimal::raw(fee));
        assert_eq!(step, expected);
    }
}

#[test]
fn reverse_step_values() {
    let cases: Vec<(i32, u16, U256, u128, u8, u128, u128, Option<(u128, u128, u128, U256, i32)>)> = vec![
        (14, 1, U256::from_words(0x1, 0x2e478317bb35a31664d3f2f40c3154), 0, 1, 184783998201, 127267585247294153, Some((0, 0, 0, U256::from_words(0x0, 0x0), 0))),
        (-11, 1, U256::from_words(0x0, 0xffdedea75e9f83d422c38b394a79a2a3), 1000000000000000, 1, 1000000, 3000000000000000, Some((1004024, 1003009, 3009, U256::from_words(0x0, 0xffdedea75e9f83d422c38b394a79a2a3), -11))),
        (19, 75, U256::from_words(0x1, 0x12e78f6e377b8ebaf41ebebdf1141d63), 100000000000000000000, 0, 1000000, 1000000000000000000, None),
        (-10, 1, U256::from_words(0x0, 0xffe0927e7cac7f09d21461527b43269d), 340282366920938463463374607431768211455, 1, 997944110886, 2000000000000000000, None),
        (-11, 10, U256::from_words(0x0, 0xfe988f30e12efa8ec76b15860b9a72ec), 100000000000000000000, 1, 7, 3000000000000000, Some((0, 0, 0, U256::from_words(0x0, 0xfe988f30e12efa8ec76b15860b9a72ec), -12))),
        (-34, 75, U256::from_words(0x0, 0xe23403bf4995549fabf1f620eeaeb348), 5, 1, 1, 1000000000000000000, None),
        (2, 75, U256::from_words(0x1, 0x24a41847db26ea791c27f9346a403b6), 5, 0, 1000, 10000000000000000, Some((0, 0, 0, U256::from_words(0x1, 0x2e567cffae0554dd257e238d979686a), 3))),
        (-28, 10, U256::from_words(0x0, 0xfc9140b9290322ba9b795fca4d2985cf), 340282366920938463463374607431768211455, 1, 7, 0, Some((7, 7, 0, U256::from_words(0x0, 0xfc9140b9290322ba9b795fca4d2985cf), -28))),
        (-32, 75, U256::from_words(0x0, 0xe3b79183706471cb7f1742c98d8241e4), 10000000000, 0, 1, 2000000000000000000, None),
        (20, 2000, U256::from_words(0x7, 0x87a87b08f5a96a72ed54446a7a3af6f7), 0, 0, 7, 1000000000000000000, Some((0, 0, 0, U256::from_words(0x0, 0x0), 0))),
        (39, 100, U256::from_words(0x1, 0x38ad0cfe73ce1e71b237794e6b6c1f78), 1, 0, 1, 852836064295190333, Some((0, 0, 0, U256::from_words(0x0, 0x0), 0))),
        (10, 65535, U256::from_words(0xcd115e02721c7, 0x55e450a20ce134756b1e6a35c64d0e02), 5, 0, 7, 0, Some((4452911433468607, 0, 0, U256::from_words(0xffb10b8fe9720, 0xc8bc418d3d71728ac161ab732b31adee), 11))),
        (-1, 20000, U256::from_words(0x0, 0xb463137eeb3ff0273fc7f75f59d2ab85), 242707618524909823214073, 1, 1, 10000000000000000, Some((2, 1, 0, U256::from_words(0x0, 0xb463137eeb3ff0273fc7f75f59d2ab85), -1))),
        (32, 2000, U256::from_words(0x1b, 0x1bb0c46314278a292d11ad828e0a5048), 10000000000, 1, 7, 10000000000000000, Some((0, 0, 0, U256::from_words(0x0, 0x0), 0))),
        (8, 10, U256::from_words(0x1, 0x11c4df15ef1b13b3944fd1f493f87c1), 0, 1, 0, 0, Some((0, 0, 0, U256::from_words(0x0, 0x0), 0))),
        (-20, 20000, U256::from_words(0x0, 0x181631cda640ce1b07fe5bea79), 10000000000, 0, 2135164467299885015855731, 1000000000000000000, Some((0, 0, 0, U256::from_words(0x0, 0x0), 0))),
        (37, 2000, U256::from_words(0x28, 0x70983a1c497f60c9d5ec685afc70299c), 10000000000, 1, 0, 1000000000000000000, None),
        (-39, 20000, U256::from_words(0x0, 0x2442b43283518a0fcce), 989364620078671940813381, 1, 1, 1000000000000000000, Some((0, 0, 0, U256::from_words(0x0, 0x0), 0))),
        (-4, 2000, U256::from_words(0x0, 0xbda6fdba22bce3b35c2ccb3468c57d37), 5, 1, 7, 3000000000000000, Some((0, 0, 0, U256::from_words(0x0, 0x0), 0))),
        (31, 2000, U256::from_words(0x16, 0x31cb7aa78dfca760e73d30336b095ddf), 340282366920938463463374607431768211455, 0, 340282366920938463463374607431768211455, 10000000000000000, None),
        (-25, 75, U256::from_words(0x0, 0xe9f7a9e644648cd56e98ae2a42a33751), 10000000000, 0, 0, 749037282865406020, Some((0, 0, 0, U256::from_words(0x0, 0xe9f7a9e644648cd56e98ae2a42a33751), -24))),
        (6, 10, U256::from_words(0x1, 0xe5c430b9772a06e02f422c4167667c), 100000000000000000000, 0, 508080644296, 0, Some((0, 0, 0, U256::from_words(0x1, 0xe5c430b9772a06e02f422c4167667c), 7))),
        (-10, 65535, U256::from_words(0x0, 0x1a8463e01758291b9b98d), 1000000, 0, 1000000, 2000000000000000000, Some((0, 0, 0, U256::from_words(0x0, 0x0), 0))),
        (-4, 2000, U256::from_words(0x0, 0xbda6fdba22bce3b35c2ccb3468c57d37), 734422564979196030032323, 0, 1, 1000000000000000000, Some((0, 0, 0, U256::from_words(0x0, 0x0), 0))),
        (40, 75, U256::from_words(0x1, 0x2a0aab1876c2e924fb50261e23a05105), 340282366920938463463374607431768211455, 1, 7, 2000000000000000000, None),
        (-19, 2000, U256::from_words(0x0, 0x2a5200bd64255c97491ccb7aa946e7f7), 10000000000, 0, 1, 10000000000000000, Some((0, 0, 0, U256::from_words(0x0, 0x2a5200bd64255c97491ccb7aa946e7f7), -18))),
        (22, 75, U256::from_words(0x1, 0x166ca5614b636a83885afd8068ae5d3a), 0, 1, 1, 3000000000000000, Some((0, 0, 0, U256::from_words(0x0, 0x0), 0))),
        (33, 1, U256::from_words(0x1, 0x6c3fcff246d311db2b4f8731328bf7), 100000000000000000000, 1, 8847472272246580412690883, 2000000000000000000, None),
        (-8, 1, U256::from_words(0x0, 0xffe5caca7e10e4e61c3624eaa0941ccf), 5, 0, 1, 0, Some((0, 0, 0, U256::from_words(0x0, 0x0), 0))),
        (-31, 10, U256::from_words(0x0, 0xfc1012f1b0751a0fab5909785ac4c164), 1000000000000000, 1, 918342532708, 2000000000000000000, Some((0, 0, 0, U256::from_words(0x0, 0x0), 0))),
        (16, 10, U256::from_words(0x1, 0x2207a986c3d69a061d5aeb944344e26), 10000000000, 0, 340282366920938463463374607431768211455, 465187140726506518, None),
        (11, 10, U256::from_words(0x1, 0x16a6f43916b473de5ce74c0b2e1c113), 5, 1, 340282366920938463463374607431768211455, 10000000000000000, None),
        (-5, 75, U256::from_words(0x0, 0xfc288ecb37bee2a357180add9069ab3b), 1000, 1, 7, 1000000000000000000, None),
        (-32, 100, U256::from_words(0x0, 0xdb3e75c3eed555ee766a28e04b14e9fa), 308709288880300458174008, 1, 1, 3000000000000000, Some((1, 1, 0, U256::from_words(0x0, 0xdb3e75c3eed555ee766a28e04b14e9fa), -32))),
        (36, 75, U256::from_words(0x1, 0x25ede0f07ba39ab5f1cc6ba1ed8e2259), 1000, 0, 1000, 10000000000000000, Some((0, 1, 0, U256::from_words(0x1, 0x2619a65b722553e0857ae1ff60ed1eee), 37))),
        (33, 75, U256::from_words(0x1, 0x22cf6e0447c67c2c7a93a3962c9cefbe), 100000000000000000000, 0, 4542739311498671334992502, 1000000000000000000, None),
        (7, 20000, U256::from_words(0xba3, 0xc413729350d3372e0e677204dcb7e6f5), 1000000, 0, 813704634204, 3000000000000000, Some((0, 0, 0, U256::from_words(0xba3, 0xc413729350d3372e0e677204dcb7e6f5), 8))),
        (5, 10, U256::from_words(0x1, 0xc4e4b271f0d927776573f0391ce820), 10000000000, 0, 7, 3000000000000000, Some((0, 0, 0, U256::from_words(0x1, 0xc4e4b271f0d927776573f0391ce820), 6))),
        (18, 1, U256::from_words(0x1, 0x3dad1876b54f82e32f117d25597e4f), 1000000, 1, 935857901590, 736201790835365429, Some((41, 41, 30, U256::from_words(0x1, 0x3b01891d8ea6b64dea88d27d19858a), 17))),
        (10, 65535, U256::from_words(0xffb10b8fe9720, 0xc8bc418d3d71728ac161ab732b31adee), 1, 0, 1, 10000000000000000, Some((0, 0, 0, U256::from_words(0xffb10b8fe9720, 0xc8bc418d3d71728ac161ab732b31adee), 11))),
    ];
    for (tick_index, tick_space, price, liquidity, returned, ask, fee, expected) in cases {
        let step = compute_swap_tick_reverse(
            tick_index,
            tick_space,
            price,
            liquidity,
            &token_number(returned),
            ask,
            Decimal::raw(fee),
        );
        assert_eq!(step, expected);
    }
}

#[test]
fn liquidity_and_amount_values() {
    let cases: Vec<(u128, u128, U256, i32, i32, u16, Option<u128>, Option<(u128, u128)>)> = vec![
        (1, 1, U256::from_words(0x1, 0x41a86c49f7c5a1886691315a0f5bc374), 7, -33, 2000, Some(0), Some((0, 0))),
        (0, 1, U256::from_words(0x0, 0x223afcf6843895b53b1eabbe8c8), -25, -24, 20000, Some(0), Some((0, 0))),
        (1, 34535121855757177171, U256::from_words(0x0, 0x4c2a2ac364e5bc802), -35, -34, 2000, Some(0), Some((0, 0))),
        (100000000000, 100000000000, U256::from_words(0x0, 0x83dab204f64da6de9d6dc84f909), -28, -33, 1, Some(332850373268012), Some((100000000000, 0))),
        (1, 1000000, U256::from_words(0x1, 0xc7d281ed69ac298b1eddc68908f270), 84, 44, 1, Some(832), Some((1, 1))),
        (77276242887762406110, 1000000, U256::from_words(0x25bcedc57d164, 0xe2588854661f66a901af86e3b8bb5db5), -45, -46, 75, Some(157849409), Some((0, 1000000))),
        (1000000, 100000000000, U256::from_words(0x0, 0x16bfc56031e783fea9ee3b873287aea), -49, -54, 2000, Some(17073), Some((999962, 18))),
        (1000000, 1, U256::from_words(0x0, 0xc64060e06bc17ff531130e47635239a8), -52, -52, 100, Some(297), Some((0, 1))),
        (0, 100000000000, U256::from_words(0x0, 0x8d907c9accab5c7fabe543), -29, -29, 20000, Some(0), Some((0, 0))),
        (1000000, 1, U256::from_words(0x0, 0x17e6f4ffe9b6a65cfd7b42), 16, 17, 2000, Some(0), Some((0, 0))),
        (0, 340282366920938463463374607431768211455, U256::from_words(0x7bc80e18c, 0xd791d723058921369a768639dbc57048), -16, -16, 20000, None, None),
        (0, 1000000, U256::from_words(0x9f43a, 0x24ada07ae985fcef37832aaa7a927527), 78, 38, 10, Some(47375932), Some((0, 1000000))),
        (72947911969039272403, 1000000, U256::from_words(0x0, 0xea1f3fa63cacd36fa95e317065bd797c), -18, -18, 100, Some(1655578260), Some((7837943, 1000000))),
        (1000000, 1000000, U256::from_words(0xf4aeafa3, 0x67cfc781391f97aa7649b086e25aedb0), -53, -53, 1, Some(20053568944), Some((0, 1000000))),
        (0, 77689359719809957867, U256::from_words(0x1, 0x34804eb0834eec86b8110ceaca05bbf5), 49, 49, 75, Some(0), Some((0, 0))),
        (1, 0, U256::from_words(0x20d4, 0x4b8f8d41000ff3cd8f13b90fb0476c5a), 50, 50, 75, Some(0), Some((0, 0))),
        (1000000, 93123245774757071954, U256::from_words(0x0, 0x736848af698e81462277d), -43, -43, 20000, Some(255697869116863397072267424494086241170), Some((0, 93123245774757071954))),
        (1000000, 100000000000, U256::from_words(0x1, 0x40027b0e57b549e03bc092ce1ed71bbf), 45, 44, 100, Some(184059145), Some((1000000, 731603))),
        (0, 1000000, U256::from_words(0x0, 0x12dcd96bedd4cc18b262), 68, 28, 1, Some(0), Some((0, 0))),
        (100000000000, 340282366920938463463374607431768211455, U256::from_words(0x0, 0x25644df774a3691b0750), 42, 42, 20000, Some(274580065363416966938038727452), Some((100000000000, 0))),
        (100000000000, 1, U256::from_words(0xd8, 0x23111f0ec49fe92fe23160c8a02def22), 58, 53, 2000, Some(0), Some((0, 0))),
        (100000000000, 0, U256::from_words(0x0, 0x13c8af118945a92ff40b17e3e7), -17, -17, 75, Some(25067992961534), Some((100000000000, 0))),
        (0, 0, U256::from_words(0x2cf7, 0xd7ecbb3d7fe2209001bd9b77dad412c8), 10, -30, 20000, Some(0), Some((0, 0))),
        (15357419331050131426, 340282366920938463463374607431768211455, U256::from_words(0xe77c13d0, 0x1ce2d5b41fbeeeeda52658450fd0359c), -15, -16, 100, None, None),
        (10554534708546035730, 0, U256::from_words(0x0, 0xfdbc89afce3226a24700816be437a2a6), -18, -18, 10, Some(0), Some((0, 0))),
        (340282366920938463463374607431768211455, 12072174368827554108, U256::from_words(0x19a845, 0x34135e70b275fa48fd8ae369991c66ec), 0, 0, 100, Some(2408524536131928116797), Some((0, 12072174368827554108))),
        (0, 100000000000, U256::from_words(0x5e7204edeaf34, 0x51731b15c92ff6639da44b811938ef06), 25, 24, 100, Some(8825428653264), Some((0, 100000000000))),
        (100000000000, 1000000, U256::from_words(0x0, 0xd0eb59c91d2acd3ec23467413255884b), -40, -41, 100, Some(696620883), Some((7003935, 1000000))),
        (1000000, 1, U256::from_words(0x0, 0x1623a97cd7173e10858b6cde457a9c), -15, -14, 1, Some(0), Some((0, 0))),
        (0, 1, U256::from_words(0x0, 0xfa97282306456f07fbf80f78b), 47, 47, 10, Some(0), Some((0, 0))),
        (54226665549603637747, 100000000000, U256::from_words(0x0, 0xffb13898e24527a15e1d2776f19ab08c), -3, -3, 10, Some(337006933679047), Some((68435146477, 100000000000))),
        (1000000, 1, U256::from_words(0x1, 0xce1e8c8652d8a82c64c3b02ce590af), 7, 6, 10, Some(7103), Some((6, 1))),
        (1, 340282366920938463463374607431768211455, U256::from_words(0x0, 0x10a79e68bb88b04eda343eafc871c), -44, -44, 1, Some(19957), Some((1, 0))),
        (1000000, 1000000, U256::from_words(0x32e0e208, 0xa5610c2f09c9503805d4e3e07b183746), -40, -39, 1, Some(0), Some((0, 0))),
        (340282366920938463463374607431768211455, 1, U256::from_words(0x0, 0x9bddc3e2483f31600be0b43), -17, -16, 10, Some(0), Some((0, 0))),
        (18684151927213242782, 1000000, U256::from_words(0x11, 0xed4d34c03e750f0a9aa267d1b170ed64), -43, -43, 1, Some(20043545167), Some((0, 1000000))),
        (15023567468335084861, 340282366920938463463374607431768211455, U256::from_words(0x0, 0x167c0886926943322f908cc465cb7f0), 23, 23, 2000, Some(1574544244982692400280), Some((15023567468335084861, 0))),
        (340282366920938463463374607431768211455, 340282366920938463463374607431768211455, U256::from_words(0x0, 0xe8b652297ab029fbacf4fd785642a0ee), -26, -27, 75, None, None),
        (1000000, 1000000, U256::from_words(0x0, 0x5e1e573bf9e5c13ec853fbe1b486f0a), 25, 20, 1, Some(3337335522), Some((1000000, 0))),
        (100000000000, 0, U256::from_words(0x525319, 0x8aebb7b35bbdfbb7a4e17d68880a4eab), 34, 34, 10, Some(0), Some((0, 0))),
    ];
    for (amount0, amount1, price, upper, lower, tick_space, liquidity, amounts) in cases {
        let computed = compute_liquidity(amount0, amount1, price, upper, lower, tick_space);
        assert_eq!(computed, liquidity);
        if let Some(liquidity) = computed {
            let back = get_token_amount_from_liquidity(upper, lower, tick_space, price, liquidity);
            assert_eq!(back, amounts);
            let (back0, back1) = back.unwrap();
            assert!(back0 <= amount0 && back1 <= amount1);
        }
    }
}

#[test]
fn tick_price_values() {
    let cases: Vec<(i32, U256)> = vec![
        (-887272, U256::from_words(0x0, 0x1000276a221a17501)),
        (-887271, U256::from_words(0x0, 0x10005bd81331b3621)),
        (-500000, U256::from_words(0x0, 0xf49ff6f39bb048a1e3a27e7)),
        (-65536, U256::from_words(0x0, 0x9aa508b5b7a84e1c677de54f3e99bc9)),
        (-4097, U256::from_words(0x0, 0xd095484625ed36f79e3eeb096663f60a)),
        (-100, U256::from_words(0x0, 0xfeb927758f54316b45a2d3b2e60e58f4)),
        (-3, U256::from_words(0x0, 0xfff62bbb6d458ec3c792106391dc463e)),
        (-2, U256::from_words(0x0, 0xfff97272373d413259a46990580e213a)),
        (-1, U256::from_words(0x0, 0xfffcb933bd6fad37aa2d162d1a594001)),
        (0, U256::from_words(0x1, 0x0)),
        (1, U256::from_words(0x1, 0x346d6ff11672ae55ad00f5c38565c)),
        (2, U256::from_words(0x1, 0x68db8bac710cb295e9e1b089a0274)),
        (3, U256::from_words(0x1, 0x9d4a533442b66e189a4eb5124fd48)),
        (100, U256::from_words(0x1, 0x1487bee1c17ddb45ce0badf11474eef)),
        (4097, U256::from_words(0x1, 0x3a3231550425e58037837a8e22d0a42e)),
        (65536, U256::from_words(0x1a, 0x7c8d00b551684ff4d31ae06501b81fa1)),
        (500000, U256::from_words(0x10be7722ac, 0x12c046792462c77d5c3d5365ec6ee95c)),
        (887271, U256::from_words(0xfffa429fbf7baeed, 0x2496f0a9f5ccf2bb4abf52f8a236aa44)),
        (887272, U256::from_words(0xfffd8963efd1fc6a, 0x506488495d951d5263988d25fa78259a)),
        (1048575, U256::from_words(0xc6c3b30bb4df4bd1ed8, 0x7e731a1d638297db11816e5eabe4de07)),
        (-1048575, U256::from_words(0x0, 0x149b7873d84d48)),
    ];
    for (tick, price) in cases {
        assert_eq!(get_tick_price_sqrt(tick), price);
    }
}
