use vstd::prelude::*;

use vstd::string::StringSliceAdditionalSpecFns;
use vstd::string::StringExecFns;

use crate::units::{MICRO, blend64, spec_blend};

verus! {

/// An 8-bit RGBA color. The alpha channel is always fully opaque in colors
/// this library produces.
#[derive(Debug, Clone, Copy, PartialEq, Eq, Structural)]
pub struct Color {
    pub r: u8,
    pub g: u8,
    pub b: u8,
    pub a: u8,
}

/// Linear-light value of an 8-bit sRGB channel, in micro-units of 1.0:
/// the standard transfer function `v <= 0.04045 ? v/12.92 :
/// ((v + 0.055)/1.055)^2.4` on `v = c/255`, rounded to the nearest
/// micro-unit. Tabulated because the library carries no floating point.
#[verifier::opaque]
pub open spec fn spec_linear(c: u8) -> u32 {
    if c == 0 {
        0
    } else if c == 1 {
        304
    } else if c == 2 {
        607
    } else if c == 3 {
        911
    } else if c == 4 {
        1214
    } else if c == 5 {
        1518
    } else if c == 6 {
        1821
    } else if c == 7 {
        2125
    } else if c == 8 {
        2428
    } else if c == 9 {
        2732
    } else if c == 10 {
        3035
    } else if c == 11 {
        3347
    } else if c == 12 {
        3677
    } else if c == 13 {
        4025
    } else if c == 14 {
        4391
    } else if c == 15 {
        4777
    } else if c == 16 {
        5182
    } else if c == 17 {
        5605
    } else if c == 18 {
        6049
    } else if c == 19 {
        6512
    } else if c == 20 {
        6995
    } else if c == 21 {
        7499
    } else if c == 22 {
        8023
    } else if c == 23 {
        8568
    } else if c == 24 {
        9134
    } else if c == 25 {
        9721
    } else if c == 26 {
        10330
    } else if c == 27 {
        10960
    } else if c == 28 {
        11612
    } else if c == 29 {
        12286
    } else if c == 30 {
        12983
    } else if c == 31 {
        13702
    } else if c == 32 {
        14444
    } else if c == 33 {
        15209
    } else if c == 34 {
        15996
    } else if c == 35 {
        16807
    } else if c == 36 {
        17642
    } else if c == 37 {
        18500
    } else if c == 38 {
        19382
    } else if c == 39 {
        20289
    } else if c == 40 {
        21219
    } else if c == 41 {
        22174
    } else if c == 42 {
        23153
    } else if c == 43 {
        24158
    } else if c == 44 {
        25187
    } else if c == 45 {
        26241
    } else if c == 46 {
        27321
    } else if c == 47 {
        28426
    } else if c == 48 {
        29557
    } else if c == 49 {
        30713
    } else if c == 50 {
        31896
    } else if c == 51 {
        33105
    } else if c == 52 {
        34340
    } else if c == 53 {
        35601
    } else if c == 54 {
        36889
    } else if c == 55 {
        38204
    } else if c == 56 {
        39546
    } else if c == 57 {
        40915
    } else if c == 58 {
        42311
    } else if c == 59 {
        43735
    } else if c == 60 {
        45186
    } else if c == 61 {
        46665
    } else if c == 62 {
        48172
    } else if c == 63 {
        49707
    } else if c == 64 {
        51269
    } else if c == 65 {
        52861
    } else if c == 66 {
        54480
    } else if c == 67 {
        56128
    } else if c == 68 {
        57805
    } else if c == 69 {
        59511
    } else if c == 70 {
        61246
    } else if c == 71 {
        63010
    } else if c == 72 {
        64803
    } else if c == 73 {
        66626
    } else if c == 74 {
        68478
    } else if c == 75 {
        70360
    } else if c == 76 {
        72272
    } else if c == 77 {
        74214
    } else if c == 78 {
        76185
    } else if c == 79 {
        78187
    } else if c == 80 {
        80220
    } else if c == 81 {
        82283
    } else if c == 82 {
        84376
    } else if c == 83 {
        86500
    } else if c == 84 {
        88656
    } else if c == 85 {
        90842
    } else if c == 86 {
        93059
    } else if c == 87 {
        95307
    } else if c == 88 {
        97587
    } else if c == 89 {
        99899
    } else if c == 90 {
        102242
    } else if c == 91 {
        104616
    } else if c == 92 {
        107023
    } else if c == 93 {
        109462
    } else if c == 94 {
        111932
    } else if c == 95 {
        114435
    } else if c == 96 {
        116971
    } else if c == 97 {
        119538
    } else if c == 98 {
        122139
    } else if c == 99 {
        124772
    } else if c == 100 {
        127438
    } else if c == 101 {
        130136
    } else if c == 102 {
        132868
    } else if c == 103 {
        135633
    } else if c == 104 {
        138432
    } else if c == 105 {
        141263
    } else if c == 106 {
        144128
    } else if c == 107 {
        147027
    } else if c == 108 {
        149960
    } else if c == 109 {
        152926
    } else if c == 110 {
        155926
    } else if c == 111 {
        158961
    } else if c == 112 {
        162029
    } else if c == 113 {
        165132
    } else if c == 114 {
        168269
    } else if c == 115 {
        171441
    } else if c == 116 {
        174647
    } else if c == 117 {
        177888
    } else if c == 118 {
        181164
    } else if c == 119 {
        184475
    } else if c == 120 {
        187821
    } else if c == 121 {
        191202
    } else if c == 122 {
        194618
    } else if c == 123 {
        198069
    } else if c == 124 {
        201556
    } else if c == 125 {
        205079
    } else if c == 126 {
        208637
    } else if c == 127 {
        212231
    } else if c == 128 {
        215861
    } else if c == 129 {
        219526
    } else if c == 130 {
        223228
    } else if c == 131 {
        226966
    } else if c == 132 {
        230740
    } else if c == 133 {
        234551
    } else if c == 134 {
        238398
    } else if c == 135 {
        242281
    } else if c == 136 {
        246201
    } else if c == 137 {
        250158
    } else if c == 138 {
        254152
    } else if c == 139 {
        258183
    } else if c == 140 {
        262251
    } else if c == 141 {
        266356
    } else if c == 142 {
        270498
    } else if c == 143 {
        274677
    } else if c == 144 {
        278894
    } else if c == 145 {
        283149
    } else if c == 146 {
        287441
    } else if c == 147 {
        291771
    } else if c == 148 {
        296138
    } else if c == 149 {
        300544
    } else if c == 150 {
        304987
    } else if c == 151 {
        309469
    } else if c == 152 {
        313989
    } else if c == 153 {
        318547
    } else if c == 154 {
        323143
    } else if c == 155 {
        327778
    } else if c == 156 {
        332452
    } else if c == 157 {
        337164
    } else if c == 158 {
        341914
    } else if c == 159 {
        346704
    } else if c == 160 {
        351533
    } else if c == 161 {
        356400
    } else if c == 162 {
        361307
    } else if c == 163 {
        366253
    } else if c == 164 {
        371238
    } else if c == 165 {
        376262
    } else if c == 166 {
        381326
    } else if c == 167 {
        386429
    } else if c == 168 {
        391572
    } else if c == 169 {
        396755
    } else if c == 170 {
        401978
    } else if c == 171 {
        407240
    } else if c == 172 {
        412543
    } else if c == 173 {
        417885
    } else if c == 174 {
        423268
    } else if c == 175 {
        428690
    } else if c == 176 {
        434154
    } else if c == 177 {
        439657
    } else if c == 178 {
        445201
    } else if c == 179 {
        450786
    } else if c == 180 {
        456411
    } else if c == 181 {
        462077
    } else if c == 182 {
        467784
    } else if c == 183 {
        473531
    } else if c == 184 {
        479320
    } else if c == 185 {
        485150
    } else if c == 186 {
        491021
    } else if c == 187 {
        496933
    } else if c == 188 {
        502886
    } else if c == 189 {
        508881
    } else if c == 190 {
        514918
    } else if c == 191 {
        520996
    } else if c == 192 {
        527115
    } else if c == 193 {
        533276
    } else if c == 194 {
        539479
    } else if c == 195 {
        545724
    } else if c == 196 {
        552011
    } else if c == 197 {
        558340
    } else if c == 198 {
        564712
    } else if c == 199 {
        571125
    } else if c == 200 {
        577580
    } else if c == 201 {
        584078
    } else if c == 202 {
        590619
    } else if c == 203 {
        597202
    } else if c == 204 {
        603827
    } else if c == 205 {
        610496
    } else if c == 206 {
        617207
    } else if c == 207 {
        623960
    } else if c == 208 {
        630757
    } else if c == 209 {
        637597
    } else if c == 210 {
        644480
    } else if c == 211 {
        651406
    } else if c == 212 {
        658375
    } else if c == 213 {
        665387
    } else if c == 214 {
        672443
    } else if c == 215 {
        679542
    } else if c == 216 {
        686685
    } else if c == 217 {
        693872
    } else if c == 218 {
        701102
    } else if c == 219 {
        708376
    } else if c == 220 {
        715694
    } else if c == 221 {
        723055
    } else if c == 222 {
        730461
    } else if c == 223 {
        737910
    } else if c == 224 {
        745404
    } else if c == 225 {
        752942
    } else if c == 226 {
        760525
    } else if c == 227 {
        768151
    } else if c == 228 {
        775822
    } else if c == 229 {
        783538
    } else if c == 230 {
        791298
    } else if c == 231 {
        799103
    } else if c == 232 {
        806952
    } else if c == 233 {
        814847
    } else if c == 234 {
        822786
    } else if c == 235 {
        830770
    } else if c == 236 {
        838799
    } else if c == 237 {
        846873
    } else if c == 238 {
        854993
    } else if c == 239 {
        863157
    } else if c == 240 {
        871367
    } else if c == 241 {
        879622
    } else if c == 242 {
        887923
    } else if c == 243 {
        896269
    } else if c == 244 {
        904661
    } else if c == 245 {
        913099
    } else if c == 246 {
        921582
    } else if c == 247 {
        930111
    } else if c == 248 {
        938686
    } else if c == 249 {
        947307
    } else if c == 250 {
        955973
    } else if c == 251 {
        964686
    } else if c == 252 {
        973445
    } else if c == 253 {
        982251
    } else if c == 254 {
        991102
    } else {
        1000000
    }
}

/// Linear-light value of an 8-bit sRGB channel (see [`spec_linear`]).
#[verifier::rlimit(100)]
pub fn linear_of(c: u8) -> (r: u32)
    ensures
        r == spec_linear(c),
        r <= MICRO,
{
    proof {
        reveal(spec_linear);
    }
    if c == 0 {
        0
    } else if c == 1 {
        304
    } else if c == 2 {
        607
    } else if c == 3 {
        911
    } else if c == 4 {
        1214
    } else if c == 5 {
        1518
    } else if c == 6 {
        1821
    } else if c == 7 {
        2125
    } else if c == 8 {
        2428
    } else if c == 9 {
        2732
    } else if c == 10 {
        3035
    } else if c == 11 {
        3347
    } else if c == 12 {
        3677
    } else if c == 13 {
        4025
    } else if c == 14 {
        4391
    } else if c == 15 {
        4777
    } else if c == 16 {
        5182
    } else if c == 17 {
        5605
    } else if c == 18 {
        6049
    } else if c == 19 {
        6512
    } else if c == 20 {
        6995
    } else if c == 21 {
        7499
    } else if c == 22 {
        8023
    } else if c == 23 {
        8568
    } else if c == 24 {
        9134
    } else if c == 25 {
        9721
    } else if c == 26 {
        10330
    } else if c == 27 {
        10960
    } else if c == 28 {
        11612
    } else if c == 29 {
        12286
    } else if c == 30 {
        12983
    } else if c == 31 {
        13702
    } else if c == 32 {
        14444
    } else if c == 33 {
        15209
    } else if c == 34 {
        15996
    } else if c == 35 {
        16807
    } else if c == 36 {
        17642
    } else if c == 37 {
        18500
    } else if c == 38 {
        19382
    } else if c == 39 {
        20289
    } else if c == 40 {
        21219
    } else if c == 41 {
        22174
    } else if c == 42 {
        23153
    } else if c == 43 {
        24158
    } else if c == 44 {
        25187
    } else if c == 45 {
        26241
    } else if c == 46 {
        27321
    } else if c == 47 {
        28426
    } else if c == 48 {
        29557
    } else if c == 49 {
        30713
    } else if c == 50 {
        31896
    } else if c == 51 {
        33105
    } else if c == 52 {
        34340
    } else if c == 53 {
        35601
    } else if c == 54 {
        36889
    } else if c == 55 {
        38204
    } else if c == 56 {
        39546
    } else if c == 57 {
        40915
    } else if c == 58 {
        42311
    } else if c == 59 {
        43735
    } else if c == 60 {
        45186
    } else if c == 61 {
        46665
    } else if c == 62 {
        48172
    } else if c == 63 {
        49707
    } else if c == 64 {
        51269
    } else if c == 65 {
        52861
    } else if c == 66 {
        54480
    } else if c == 67 {
        56128
    } else if c == 68 {
        57805
    } else if c == 69 {
        59511
    } else if c == 70 {
        61246
    } else if c == 71 {
        63010
    } else if c == 72 {
        64803
    } else if c == 73 {
        66626
    } else if c == 74 {
        68478
    } else if c == 75 {
        70360
    } else if c == 76 {
        72272
    } else if c == 77 {
        74214
    } else if c == 78 {
        76185
    } else if c == 79 {
        78187
    } else if c == 80 {
        80220
    } else if c == 81 {
        82283
    } else if c == 82 {
        84376
    } else if c == 83 {
        86500
    } else if c == 84 {
        88656
    } else if c == 85 {
        90842
    } else if c == 86 {
        93059
    } else if c == 87 {
        95307
    } else if c == 88 {
        97587
    } else if c == 89 {
        99899
    } else if c == 90 {
        102242
    } else if c == 91 {
        104616
    } else if c == 92 {
        107023
    } else if c == 93 {
        109462
    } else if c == 94 {
        111932
    } else if c == 95 {
        114435
    } else if c == 96 {
        116971
    } else if c == 97 {
        119538
    } else if c == 98 {
        122139
    } else if c == 99 {
        124772
    } else if c == 100 {
        127438
    } else if c == 101 {
        130136
    } else if c == 102 {
        132868
    } else if c == 103 {
        135633
    } else if c == 104 {
        138432
    } else if c == 105 {
        141263
    } else if c == 106 {
        144128
    } else if c == 107 {
        147027
    } else if c == 108 {
        149960
    } else if c == 109 {
        152926
    } else if c == 110 {
        155926
    } else if c == 111 {
        158961
    } else if c == 112 {
        162029
    } else if c == 113 {
        165132
    } else if c == 114 {
        168269
    } else if c == 115 {
        171441
    } else if c == 116 {
        174647
    } else if c == 117 {
        177888
    } else if c == 118 {
        181164
    } else if c == 119 {
        184475
    } else if c == 120 {
        187821
    } else if c == 121 {
        191202
    } else if c == 122 {
        194618
    } else if c == 123 {
        198069
    } else if c == 124 {
        201556
    } else if c == 125 {
        205079
    } else if c == 126 {
        208637
    } else if c == 127 {
        212231
    } else if c == 128 {
        215861
    } else if c == 129 {
        219526
    } else if c == 130 {
        223228
    } else if c == 131 {
        226966
    } else if c == 132 {
        230740
    } else if c == 133 {
        234551
    } else if c == 134 {
        238398
    } else if c == 135 {
        242281
    } else if c == 136 {
        246201
    } else if c == 137 {
        250158
    } else if c == 138 {
        254152
    } else if c == 139 {
        258183
    } else if c == 140 {
        262251
    } else if c == 141 {
        266356
    } else if c == 142 {
        270498
    } else if c == 143 {
        274677
    } else if c == 144 {
        278894
    } else if c == 145 {
        283149
    } else if c == 146 {
        287441
    } else if c == 147 {
        291771
    } else if c == 148 {
        296138
    } else if c == 149 {
        300544
    } else if c == 150 {
        304987
    } else if c == 151 {
        309469
    } else if c == 152 {
        313989
    } else if c == 153 {
        318547
    } else if c == 154 {
        323143
    } else if c == 155 {
        327778
    } else if c == 156 {
        332452
    } else if c == 157 {
        337164
    } else if c == 158 {
        341914
    } else if c == 159 {
        346704
    } else if c == 160 {
        351533
    } else if c == 161 {
        356400
    } else if c == 162 {
        361307
    } else if c == 163 {
        366253
    } else if c == 164 {
        371238
    } else if c == 165 {
        376262
    } else if c == 166 {
        381326
    } else if c == 167 {
        386429
    } else if c == 168 {
        391572
    } else if c == 169 {
        396755
    } else if c == 170 {
        401978
    } else if c == 171 {
        407240
    } else if c == 172 {
        412543
    } else if c == 173 {
        417885
    } else if c == 174 {
        423268
    } else if c == 175 {
        428690
    } else if c == 176 {
        434154
    } else if c == 177 {
        439657
    } else if c == 178 {
        445201
    } else if c == 179 {
        450786
    } else if c == 180 {
        456411
    } else if c == 181 {
        462077
    } else if c == 182 {
        467784
    } else if c == 183 {
        473531
    } else if c == 184 {
        479320
    } else if c == 185 {
        485150
    } else if c == 186 {
        491021
    } else if c == 187 {
        496933
    } else if c == 188 {
        502886
    } else if c == 189 {
        508881
    } else if c == 190 {
        514918
    } else if c == 191 {
        520996
    } else if c == 192 {
        527115
    } else if c == 193 {
        533276
    } else if c == 194 {
        539479
    } else if c == 195 {
        545724
    } else if c == 196 {
        552011
    } else if c == 197 {
        558340
    } else if c == 198 {
        564712
    } else if c == 199 {
        571125
    } else if c == 200 {
        577580
    } else if c == 201 {
        584078
    } else if c == 202 {
        590619
    } else if c == 203 {
        597202
    } else if c == 204 {
        603827
    } else if c == 205 {
        610496
    } else if c == 206 {
        617207
    } else if c == 207 {
        623960
    } else if c == 208 {
        630757
    } else if c == 209 {
        637597
    } else if c == 210 {
        644480
    } else if c == 211 {
        651406
    } else if c == 212 {
        658375
    } else if c == 213 {
        665387
    } else if c == 214 {
        672443
    } else if c == 215 {
        679542
    } else if c == 216 {
        686685
    } else if c == 217 {
        693872
    } else if c == 218 {
        701102
    } else if c == 219 {
        708376
    } else if c == 220 {
        715694
    } else if c == 221 {
        723055
    } else if c == 222 {
        730461
    } else if c == 223 {
        737910
    } else if c == 224 {
        745404
    } else if c == 225 {
        752942
    } else if c == 226 {
        760525
    } else if c == 227 {
        768151
    } else if c == 228 {
        775822
    } else if c == 229 {
        783538
    } else if c == 230 {
        791298
    } else if c == 231 {
        799103
    } else if c == 232 {
        806952
    } else if c == 233 {
        814847
    } else if c == 234 {
        822786
    } else if c == 235 {
        830770
    } else if c == 236 {
        838799
    } else if c == 237 {
        846873
    } else if c == 238 {
        854993
    } else if c == 239 {
        863157
    } else if c == 240 {
        871367
    } else if c == 241 {
        879622
    } else if c == 242 {
        887923
    } else if c == 243 {
        896269
    } else if c == 244 {
        904661
    } else if c == 245 {
        913099
    } else if c == 246 {
        921582
    } else if c == 247 {
        930111
    } else if c == 248 {
        938686
    } else if c == 249 {
        947307
    } else if c == 250 {
        955973
    } else if c == 251 {
        964686
    } else if c == 252 {
        973445
    } else if c == 253 {
        982251
    } else if c == 254 {
        991102
    } else {
        1000000
    }
}

/// Value of an ASCII hex digit, if the byte is one.
pub open spec fn spec_hex_val(b: u8) -> Option<u8> {
    if ('0' as u8) <= b && b <= ('9' as u8) {
        Some((b - ('0' as u8)) as u8)
    } else if ('a' as u8) <= b && b <= ('f' as u8) {
        Some((b - ('a' as u8) + 10) as u8)
    } else if ('A' as u8) <= b && b <= ('F' as u8) {
        Some((b - ('A' as u8) + 10) as u8)
    } else {
        None
    }
}

/// Byte value of two hex digits, if both bytes are hex digits.
pub open spec fn spec_hex_pair(hi: u8, lo: u8) -> Option<u8> {
    match (spec_hex_val(hi), spec_hex_val(lo)) {
        (Some(h), Some(l)) => Some((h * 16 + l) as u8),
        _ => None,
    }
}

/// Which color an `RRGGBB` text (with optional leading `#`) denotes, if any.
pub open spec fn spec_parse_color(s: Seq<u8>) -> Option<Color> {
    let t = if s.len() > 0 && s[0] == ('#' as u8) {
        s.skip(1)
    } else {
        s
    };
    if t.len() != 6 {
        None
    } else {
        match (spec_hex_pair(t[0], t[1]), spec_hex_pair(t[2], t[3]), spec_hex_pair(t[4], t[5])) {
            (Some(r), Some(g), Some(b)) => Some(Color { r, g, b, a: 255 }),
            _ => None,
        }
    }
}

fn hex_val(b: u8) -> (r: Option<u8>)
    ensures
        r == spec_hex_val(b),
{
    if ('0' as u8) <= b && b <= ('9' as u8) {
        Some(b - ('0' as u8))
    } else if ('a' as u8) <= b && b <= ('f' as u8) {
        Some(b - ('a' as u8) + 10)
    } else if ('A' as u8) <= b && b <= ('F' as u8) {
        Some(b - ('A' as u8) + 10)
    } else {
        None
    }
}

fn hex_pair(hi: u8, lo: u8) -> (r: Option<u8>)
    ensures
        r == spec_hex_pair(hi, lo),
{
    match (hex_val(hi), hex_val(lo)) {
        (Some(h), Some(l)) => Some(h * 16 + l),
        _ => None,
    }
}

/// Parse an `RRGGBB` color (optional leading `#`) from raw bytes.
pub fn parse_color_bytes(s: &[u8]) -> (r: Option<Color>)
    ensures
        r == spec_parse_color(s@),
{
    let off: usize = if s.len() > 0 && s[0] == ('#' as u8) {
        1
    } else {
        0
    };
    proof {
        if off == 1 {
            assert(s@.skip(1).len() == s@.len() - 1);
        }
    }
    if s.len() - off != 6 {
        return None;
    }
    let ghost t: Seq<u8> = if off == 1 { s@.skip(1) } else { s@ };
    assert(forall|k: int| 0 <= k < 6 ==> t[k] == s@[off + k]);
    let p0 = hex_pair(s[off], s[off + 1]);
    let p1 = hex_pair(s[off + 2], s[off + 3]);
    let p2 = hex_pair(s[off + 4], s[off + 5]);
    match (p0, p1, p2) {
        (Some(r), Some(g), Some(b)) => Some(Color { r, g, b, a: 255 }),
        _ => None,
    }
}

/// Parse an `RRGGBB` color (optional leading `#`) from text, as given on a
/// program line or a command line.
pub fn parse_color(s: &str) -> (res: Result<Color, String>)
    ensures
        res is Ok <==> spec_parse_color(s.spec_bytes()) is Some,
        res is Ok ==> spec_parse_color(s.spec_bytes()) == Some(res->Ok_0),
{
    match parse_color_bytes(s.as_bytes()) {
        Some(c) => Ok(c),
        None => Err(String::from_str("color must be a 6-digit hex string (e.g., FF0000)")),
    }
}

/// Distance from a channel's linear-light value to a target linear value.
pub open spec fn spec_dist(c: u8, v: int) -> int {
    if spec_linear(c) >= v {
        spec_linear(c) - v
    } else {
        v - spec_linear(c)
    }
}

/// The channel among `0..n` whose linear-light value lies nearest to `v`,
/// lowest channel first on ties.
pub open spec fn spec_nearest_upto(v: int, n: int) -> u8
    decreases n,
{
    if n <= 1 {
        0
    } else {
        let prev = spec_nearest_upto(v, n - 1);
        let c = (n - 1) as u8;
        if spec_dist(c, v) < spec_dist(prev, v) {
            c
        } else {
            prev
        }
    }
}

/// The 8-bit channel whose linear-light value lies nearest to `v`.
pub open spec fn spec_nearest(v: int) -> u8 {
    spec_nearest_upto(v, 256)
}

/// Find the 8-bit channel whose linear-light value lies nearest to `v`
/// (lowest channel on ties): the exact inverse of the transfer table.
pub fn nearest_channel(v: u64) -> (c: u8)
    ensures
        c == spec_nearest(v as int),
{
    let lv0 = linear_of(0);
    let mut best: u8 = 0;
    let mut best_dist: u64 = if lv0 as u64 >= v { lv0 as u64 - v } else { v - lv0 as u64 };
    let mut i: usize = 1;
    while i < 256
        invariant
            1 <= i <= 256,
            best == spec_nearest_upto(v as int, i as int),
            best_dist == spec_dist(best, v as int),
        decreases 256 - i,
    {
        let c = i as u8;
        let lv = linear_of(c) as u64;
        let d: u64 = if lv >= v { lv - v } else { v - lv };
        if d < best_dist {
            best = c;
            best_dist = d;
        }
        i = i + 1;
    }
    best
}

impl Color {
    /// Blend of two colors by `t` micro-units (clamped to `[0, MICRO]`):
    /// each channel is converted to linear light, interpolated there, and
    /// converted back through the nearest table value.
    pub open spec fn spec_lerp(start: Color, end: Color, t: int) -> Color {
        let tc = if t < 0 { 0 } else if t > MICRO { MICRO as int } else { t };
        Color {
            r: spec_nearest(spec_blend(spec_linear(start.r) as int, spec_linear(end.r) as int, tc, MICRO as int)),
            g: spec_nearest(spec_blend(spec_linear(start.g) as int, spec_linear(end.g) as int, tc, MICRO as int)),
            b: spec_nearest(spec_blend(spec_linear(start.b) as int, spec_linear(end.b) as int, tc, MICRO as int)),
            a: 255,
        }
    }

    /// Interpolate two colors in linear light by `t` micro-units of 1.0.
    pub fn lerp(start: Color, end: Color, t: u64) -> (res: Color)
        ensures
            res == Color::spec_lerp(start, end, t as int),
    {
        let tc: u64 = if t > MICRO { MICRO } else { t };
        let r = nearest_channel(blend64(linear_of(start.r) as u64, linear_of(end.r) as u64, tc, MICRO));
        let g = nearest_channel(blend64(linear_of(start.g) as u64, linear_of(end.g) as u64, tc, MICRO));
        let b = nearest_channel(blend64(linear_of(start.b) as u64, linear_of(end.b) as u64, tc, MICRO));
        Color { r, g, b, a: 255 }
    }
}

/// The default "on" flash color, full white.
pub fn default_on_color() -> (c: Color)
    ensures
        c == (Color { r: 255, g: 255, b: 255, a: 255 }),
{
    Color { r: 255, g: 255, b: 255, a: 255 }
}

/// The default "off" flash color, full black.
pub fn default_off_color() -> (c: Color)
    ensures
        c == (Color { r: 0, g: 0, b: 0, a: 255 }),
{
    Color { r: 0, g: 0, b: 0, a: 255 }
}

} // verus!
