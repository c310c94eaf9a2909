use rs_ssl::Word;
use rs_ssl::sha1::{Sha1, ShaContext};
use rs_ssl::sha256::{Sha224Hasher, Sha256Hasher};
use rs_ssl::sha3::Sha3_384Hasher;
use rs_ssl::sha512::{Sha384Hasher, Sha512Hasher, Sha512_224Hasher, Sha512_256Hasher};

fn hex(bytes: &[u8]) -> String {
    bytes.iter().map(|b| format!("{:02x}", b)).collect::<String>()
}

/// A message of `n` bytes with a fixed, non-repeating-looking pattern.
fn pattern(n: usize) -> Vec<u8> {
    (0..n).map(|i| ((i * 7 + 3) % 256) as u8).collect()
}

fn sha1_hex(m: &[u8]) -> String {
    let mut h = ShaContext::init();
    h.write(m);
    hex(&h.finalize())
}

#[test]
fn sha1_known_answer_empty() {
    assert_eq!(sha1_hex(b""), "da39a3ee5e6b4b0d3255bfef95601890afd80709");
}

#[test]
fn sha1_known_answer_abc() {
    assert_eq!(sha1_hex(b"abc"), "a9993e364706816aba3e25717850c26c9cd0d89d");
}

#[test]
fn sha1_known_answer_fox() {
    assert_eq!(sha1_hex(b"The quick brown fox jumps over the lazy dog"), "2fd4e1c67a2d28fced849ee1bb76e7391b93eb12");
}

#[test]
fn sha1_block_boundary_55() {
    assert_eq!(sha1_hex(&pattern(55)), "ddf57317ef34bfee3b6df83d359098930eb278bc");
}

#[test]
fn sha1_block_boundary_56() {
    assert_eq!(sha1_hex(&pattern(56)), "a0d492bb0fc889d0eca3bc137066ab6f4f74f369");
}

#[test]
fn sha1_block_boundary_64() {
    assert_eq!(sha1_hex(&pattern(64)), "bede92be29c3874e1b54ddc77988d606fc857a8e");
}

#[test]
fn sha1_block_boundary_119() {
    assert_eq!(sha1_hex(&pattern(119)), "504e27376a6e0f0dba8295b85cb25dc4dfa17d23");
}

#[test]
fn sha1_block_boundary_120() {
    assert_eq!(sha1_hex(&pattern(120)), "82134b02fb3f702491be9bed581eeab59334acb2");
}

#[test]
fn sha1_long_message() {
    assert_eq!(sha1_hex(&pattern(1000)), "4231a8a50a10fa9758db8ec71fdef855b751048a");
}

#[test]
fn sha1_chunked_writes_match_one_write() {
    let m = pattern(777);
    let mut h = ShaContext::init();
    for chunk in [&m[..1], &m[1..63], &m[63..64], &m[64..300], &m[300..300], &m[300..777]] {
        h.write(chunk);
    }
    assert_eq!(hex(&h.finalize()), sha1_hex(&m));
    assert_eq!(sha1_hex(&m), "1ab6e7c788b7edcc1ff4eeb9bf8d4354499c02e1");
}

#[test]
fn sha1_empty_writes_change_nothing() {
    let mut h = ShaContext::init();
    h.write(&[]);
    h.write(b"ab");
    h.write(&[]);
    h.write(b"c");
    h.write(&[]);
    assert_eq!(hex(&h.finalize()), "a9993e364706816aba3e25717850c26c9cd0d89d");
}

fn sha224_hex(m: &[u8]) -> String {
    let mut h = Sha224Hasher::new();
    h.write(m);
    hex(&h.finish())
}

#[test]
fn sha224_known_answer_empty() {
    assert_eq!(sha224_hex(b""), "d14a028c2a3a2bc9476102bb288234c415a2b01f828ea62ac5b3e42f");
}

#[test]
fn sha224_known_answer_abc() {
    assert_eq!(sha224_hex(b"abc"), "23097d223405d8228642a477bda255b32aadbce4bda0b3f7e36c9da7");
}

#[test]
fn sha224_known_answer_fox() {
    assert_eq!(sha224_hex(b"The quick brown fox jumps over the lazy dog"), "730e109bd7a8a32b1cb9d9a09aa2325d2430587ddbc0c38bad911525");
}

#[test]
fn sha224_block_boundary_55() {
    assert_eq!(sha224_hex(&pattern(55)), "703a7d6e61c83903b5db54ddf6dda2268211b47c90bbdac2ed306d8a");
}

#[test]
fn sha224_block_boundary_56() {
    assert_eq!(sha224_hex(&pattern(56)), "850fef35478d7a94a417713dbded4a39c18be2b40e6f20f47066d306");
}

#[test]
fn sha224_block_boundary_64() {
    assert_eq!(sha224_hex(&pattern(64)), "e480c1c21ffd3f109fc0cde0daf967c748932b64f8e259d98db17420");
}

#[test]
fn sha224_block_boundary_119() {
    assert_eq!(sha224_hex(&pattern(119)), "6c9c99e7d1090cb995200ccc9fc757a4383d3a1004cc36bc266c7947");
}

#[test]
fn sha224_block_boundary_120() {
    assert_eq!(sha224_hex(&pattern(120)), "d733ebb80612c4699bfca3061aab0cd9e138ef73aecf1d0f23e75340");
}

#[test]
fn sha224_long_message() {
    assert_eq!(sha224_hex(&pattern(1000)), "23729dacbd480285c5c68439e2fe22ca5611a63cd6c14d2ec5ae2c85");
}

#[test]
fn sha224_chunked_writes_match_one_write() {
    let m = pattern(777);
    let mut h = Sha224Hasher::new();
    for chunk in [&m[..1], &m[1..63], &m[63..64], &m[64..300], &m[300..300], &m[300..777]] {
        h.write(chunk);
    }
    assert_eq!(hex(&h.finish()), sha224_hex(&m));
    assert_eq!(sha224_hex(&m), "72d3b50ceb70c8f9ba21606292bcb8d26d83e23c1640bd49bd2cc404");
}

#[test]
fn sha224_empty_writes_change_nothing() {
    let mut h = Sha224Hasher::new();
    h.write(&[]);
    h.write(b"ab");
    h.write(&[]);
    h.write(b"c");
    h.write(&[]);
    assert_eq!(hex(&h.finish()), "23097d223405d8228642a477bda255b32aadbce4bda0b3f7e36c9da7");
}

fn sha256_hex(m: &[u8]) -> String {
    let mut h = Sha256Hasher::new();
    h.write(m);
    hex(&h.finish())
}

#[test]
fn sha256_known_answer_empty() {
    assert_eq!(sha256_hex(b""), "e3b0c44298fc1c149afbf4c8996fb92427ae41e4649b934ca495991b7852b855");
}

#[test]
fn sha256_known_answer_abc() {
    assert_eq!(sha256_hex(b"abc"), "ba7816bf8f01cfea414140de5dae2223b00361a396177a9cb410ff61f20015ad");
}

#[test]
fn sha256_known_answer_fox() {
    assert_eq!(sha256_hex(b"The quick brown fox jumps over the lazy dog"), "d7a8fbb307d7809469ca9abcb0082e4f8d5651e46d3cdb762d02d0bf37c9e592");
}

#[test]
fn sha256_block_boundary_55() {
    assert_eq!(sha256_hex(&pattern(55)), "e7313d333c272e639f790978283f9eb392e843d0f29b7016828bb1daa4aac70b");
}

#[test]
fn sha256_block_boundary_56() {
    assert_eq!(sha256_hex(&pattern(56)), "4324d65f3c103567f5589c710bc08f8523f929a9272e3af36fc968e52abc6c27");
}

#[test]
fn sha256_block_boundary_64() {
    assert_eq!(sha256_hex(&pattern(64)), "39e3d7b6b5d075d37d053ad89b24b41bef4f3c29760c84447cab3f3be1882241");
}

#[test]
fn sha256_block_boundary_119() {
    assert_eq!(sha256_hex(&pattern(119)), "9ce7368e4daf32341631b492e80359dc9f594b48453cd0dd5bf0b19279cc177e");
}

#[test]
fn sha256_block_boundary_120() {
    assert_eq!(sha256_hex(&pattern(120)), "7836b787757e95e58b3ca5aec90b1b004e8deba1e50e9675af9cabf1a13a04b5");
}

#[test]
fn sha256_long_message() {
    assert_eq!(sha256_hex(&pattern(1000)), "1e9bc38cbf860b9ec31918b065f9b52476c549a782e0e7990bed8ce3868d2371");
}

#[test]
fn sha256_chunked_writes_match_one_write() {
    let m = pattern(777);
    let mut h = Sha256Hasher::new();
    for chunk in [&m[..1], &m[1..63], &m[63..64], &m[64..300], &m[300..300], &m[300..777]] {
        h.write(chunk);
    }
    assert_eq!(hex(&h.finish()), sha256_hex(&m));
    assert_eq!(sha256_hex(&m), "863eb9010649e6cc2aa348ec2aa4a731ea8d0bdd905f489743a4e96e1ca55add");
}

#[test]
fn sha256_empty_writes_change_nothing() {
    let mut h = Sha256Hasher::new();
    h.write(&[]);
    h.write(b"ab");
    h.write(&[]);
    h.write(b"c");
    h.write(&[]);
    assert_eq!(hex(&h.finish()), "ba7816bf8f01cfea414140de5dae2223b00361a396177a9cb410ff61f20015ad");
}

fn sha384_hex(m: &[u8]) -> String {
    let mut h = Sha384Hasher::new();
    h.write(m);
    hex(&h.finish())
}

#[test]
fn sha384_known_answer_empty() {
    assert_eq!(sha384_hex(b""), "38b060a751ac96384cd9327eb1b1e36a21fdb71114be07434c0cc7bf63f6e1da274edebfe76f65fbd51ad2f14898b95b");
}

#[test]
fn sha384_known_answer_abc() {
    assert_eq!(sha384_hex(b"abc"), "cb00753f45a35e8bb5a03d699ac65007272c32ab0eded1631a8b605a43ff5bed8086072ba1e7cc2358baeca134c825a7");
}

#[test]
fn sha384_known_answer_fox() {
    assert_eq!(sha384_hex(b"The quick brown fox jumps over the lazy dog"), "ca737f1014a48f4c0b6dd43cb177b0afd9e5169367544c494011e3317dbf9a509cb1e5dc1e85a941bbee3d7f2afbc9b1");
}

#[test]
fn sha384_block_boundary_111() {
    assert_eq!(sha384_hex(&pattern(111)), "341388a9dc2275074e90cf394323761919761c805fd9e370977c9966a0e8c81a52135f02577670b0071638a4a26dbc31");
}

#[test]
fn sha384_block_boundary_112() {
    assert_eq!(sha384_hex(&pattern(112)), "619cc5d06138526d70659eccf602d197e63e1050e22039a7feb40a30a5b2b08fb03729e291df12f8c576e6f1cd8af22a");
}

#[test]
fn sha384_block_boundary_128() {
    assert_eq!(sha384_hex(&pattern(128)), "e8480e9c4dd90f88104a79cbaccec48edbd798a142b4f241d726dc252f1502350e824c7d18dadd59d7d716919fb8f9bf");
}

#[test]
fn sha384_block_boundary_239() {
    assert_eq!(sha384_hex(&pattern(239)), "fc75ded15c6080ff96ac03391fc1302ca180128e4b6a4a2f17782f2ec016fc3f79b48b5fed3305fb7fdff9fd29434525");
}

#[test]
fn sha384_block_boundary_240() {
    assert_eq!(sha384_hex(&pattern(240)), "4c4bc5dae174dd68cb5a62e066e01e339e4980e4a35531b732dcf88e9c579e66f7c0d044779e2eda8a597684ca7cffd6");
}

#[test]
fn sha384_long_message() {
    assert_eq!(sha384_hex(&pattern(1000)), "94c38db521ca733b8904c2d14b6e82d33dcfcc26e1318c579dbee1fc2f472019034e792263b9d46e90e700de2f6e7e91");
}

#[test]
fn sha384_chunked_writes_match_one_write() {
    let m = pattern(777);
    let mut h = Sha384Hasher::new();
    for chunk in [&m[..1], &m[1..63], &m[63..64], &m[64..300], &m[300..300], &m[300..777]] {
        h.write(chunk);
    }
    assert_eq!(hex(&h.finish()), sha384_hex(&m));
    assert_eq!(sha384_hex(&m), "e99353725455e0030ce1d46bad2fee167b4cbdfc45a793dd24069c7cedec5a3c0127184f59eb192e6d4cddf50da321aa");
}

#[test]
fn sha384_empty_writes_change_nothing() {
    let mut h = Sha384Hasher::new();
    h.write(&[]);
    h.write(b"ab");
    h.write(&[]);
    h.write(b"c");
    h.write(&[]);
    assert_eq!(hex(&h.finish()), "cb00753f45a35e8bb5a03d699ac65007272c32ab0eded1631a8b605a43ff5bed8086072ba1e7cc2358baeca134c825a7");
}

fn sha512_hex(m: &[u8]) -> String {
    let mut h = Sha512Hasher::new();
    h.write(m);
    hex(&h.finish())
}

#[test]
fn sha512_known_answer_empty() {
    assert_eq!(sha512_hex(b""), "cf83e1357eefb8bdf1542850d66d8007d620e4050b5715dc83f4a921d36ce9ce47d0d13c5d85f2b0ff8318d2877eec2f63b931bd47417a81a538327af927da3e");
}

#[test]
fn sha512_known_answer_abc() {
    assert_eq!(sha512_hex(b"abc"), "ddaf35a193617abacc417349ae20413112e6fa4e89a97ea20a9eeee64b55d39a2192992a274fc1a836ba3c23a3feebbd454d4423643ce80e2a9ac94fa54ca49f");
}

#[test]
fn sha512_known_answer_fox() {
    assert_eq!(sha512_hex(b"The quick brown fox jumps over the lazy dog"), "07e547d9586f6a73f73fbac0435ed76951218fb7d0c8d788a309d785436bbb642e93a252a954f23912547d1e8a3b5ed6e1bfd7097821233fa0538f3db854fee6");
}

#[test]
fn sha512_block_boundary_111() {
    assert_eq!(sha512_hex(&pattern(111)), "68cffa6d0d76f309c9ce0d35280939f8e25990c43b7b086ccdf709be35b07d4ddba599541ff2b1c19d34ea49aeafb9659adb7ac3c0b078bb30a22d57fc6687ef");
}

#[test]
fn sha512_block_boundary_112() {
    assert_eq!(sha512_hex(&pattern(112)), "d0865c524d1dddf7c23b799c413f5adcd7caefd3f66a9b49750ec81066012c25a8bcf94ddea6dc525691673097ca40e0101e897fc97218cfdb0704084e2bef4b");
}

#[test]
fn sha512_block_boundary_128() {
    assert_eq!(sha512_hex(&pattern(128)), "99b16f17aa0b969a5b8f08f367719d516e330ccd2660b6f0688ec031dbc783de50a1cd185a2568dba75070a2403d17d4741d163578515dfd2ff756ddfe4d47b1");
}

#[test]
fn sha512_block_boundary_239() {
    assert_eq!(sha512_hex(&pattern(239)), "18ee83f30261c3c645d52aee6a209105b25bba39d33845ef48984cc238e4f21661fb7bd7dd4336f71c40fe87d95e5115d6c7be52e0d3e7e7877d24500b5b58df");
}

#[test]
fn sha512_block_boundary_240() {
    assert_eq!(sha512_hex(&pattern(240)), "9d60ee60d29ec4fa0b9690c04c1c29413bbe3ed345639182d9d53dcc05926b77b04f4fec1562fb85182954c96b7cbb5d5e4410251ff4f352d09a2da90419fb13");
}

#[test]
fn sha512_long_message() {
    assert_eq!(sha512_hex(&pattern(1000)), "00e36fccf193e59697a92b5ab24666ce6326d7fa16bf10832d0991ddc591112e9dfa6a636950ed9c4d67344a760654c2ff7785e1d60094d651038735b5dccabd");
}

#[test]
fn sha512_chunked_writes_match_one_write() {
    let m = pattern(777);
    let mut h = Sha512Hasher::new();
    for chunk in [&m[..1], &m[1..63], &m[63..64], &m[64..300], &m[300..300], &m[300..777]] {
        h.write(chunk);
    }
    assert_eq!(hex(&h.finish()), sha512_hex(&m));
    assert_eq!(sha512_hex(&m), "aa0acc0e93ded6a98b050f67bb49bf7e1c75ddfd5f3c8a45380499223a89be8d11d99cf9a8931e3def4bb9b692dc595cb5063188086b037f45536303d5bc711f");
}

#[test]
fn sha512_empty_writes_change_nothing() {
    let mut h = Sha512Hasher::new();
    h.write(&[]);
    h.write(b"ab");
    h.write(&[]);
    h.write(b"c");
    h.write(&[]);
    assert_eq!(hex(&h.finish()), "ddaf35a193617abacc417349ae20413112e6fa4e89a97ea20a9eeee64b55d39a2192992a274fc1a836ba3c23a3feebbd454d4423643ce80e2a9ac94fa54ca49f");
}

fn sha512_224_hex(m: &[u8]) -> String {
    let mut h = Sha512_224Hasher::new();
    h.write(m);
    hex(&h.finish())
}

#[test]
fn sha512_224_known_answer_empty() {
    assert_eq!(sha512_224_hex(b""), "6ed0dd02806fa89e25de060c19d3ac86cabb87d6a0ddd05c333b84f4");
}

#[test]
fn sha512_224_known_answer_abc() {
    assert_eq!(sha512_224_hex(b"abc"), "4634270f707b6a54daae7530460842e20e37ed265ceee9a43e8924aa");
}

#[test]
fn sha512_224_known_answer_fox() {
    assert_eq!(sha512_224_hex(b"The quick brown fox jumps over the lazy dog"), "944cd2847fb54558d4775db0485a50003111c8e5daa63fe722c6aa37");
}

#[test]
fn sha512_224_block_boundary_111() {
    assert_eq!(sha512_224_hex(&pattern(111)), "3d129253d4ab49fc6068dd89a1d20ac62c1b9813e8c751599e55b2e9");
}

#[test]
fn sha512_224_block_boundary_112() {
    assert_eq!(sha512_224_hex(&pattern(112)), "04bb9fe23acddc19212885e31154a8b013ffd1772e27a7254cb843e0");
}

#[test]
fn sha512_224_block_boundary_128() {
    assert_eq!(sha512_224_hex(&pattern(128)), "f635f046846689502b92ab1c55f8511150b9bf221be32b3454d68dc4");
}

#[test]
fn sha512_224_block_boundary_239() {
    assert_eq!(sha512_224_hex(&pattern(239)), "b39283623262002bc414de64a597e11bc032dbb23894fdffbd79a244");
}

#[test]
fn sha512_224_block_boundary_240() {
    assert_eq!(sha512_224_hex(&pattern(240)), "282aea58bef3045fcd8af74e1498e5d9abc74385fe6c303e8b674225");
}

#[test]
fn sha512_224_long_message() {
    assert_eq!(sha512_224_hex(&pattern(1000)), "b6c1c1e13c07e992f0df6a5c8e4c6c153f91516cfa051b9fbfa88514");
}

#[test]
fn sha512_224_chunked_writes_match_one_write() {
    let m = pattern(777);
    let mut h = Sha512_224Hasher::new();
    for chunk in [&m[..1], &m[1..63], &m[63..64], &m[64..300], &m[300..300], &m[300..777]] {
        h.write(chunk);
    }
    assert_eq!(hex(&h.finish()), sha512_224_hex(&m));
    assert_eq!(sha512_224_hex(&m), "7dfe3c3b2322a66eb09f2bea8c2323655d4aeedf92a38cdd03889a0b");
}

#[test]
fn sha512_224_empty_writes_change_nothing() {
    let mut h = Sha512_224Hasher::new();
    h.write(&[]);
    h.write(b"ab");
    h.write(&[]);
    h.write(b"c");
    h.write(&[]);
    assert_eq!(hex(&h.finish()), "4634270f707b6a54daae7530460842e20e37ed265ceee9a43e8924aa");
}

fn sha512_256_hex(m: &[u8]) -> String {
    let mut h = Sha512_256Hasher::new();
    h.write(m);
    hex(&h.finish())
}

#[test]
fn sha512_256_known_answer_empty() {
    assert_eq!(sha512_256_hex(b""), "c672b8d1ef56ed28ab87c3622c5114069bdd3ad7b8f9737498d0c01ecef0967a");
}

#[test]
fn sha512_256_known_answer_abc() {
    assert_eq!(sha512_256_hex(b"abc"), "53048e2681941ef99b2e29b76b4c7dabe4c2d0c634fc6d46e0e2f13107e7af23");
}

#[test]
fn sha512_256_known_answer_fox() {
    assert_eq!(sha512_256_hex(b"The quick brown fox jumps over the lazy dog"), "dd9d67b371519c339ed8dbd25af90e976a1eeefd4ad3d889005e532fc5bef04d");
}

#[test]
fn sha512_256_block_boundary_111() {
    assert_eq!(sha512_256_hex(&pattern(111)), "32889a63b00e93a91df09b4292875c8e9ea2d30e482b2f5ab713396275e9378b");
}

#[test]
fn sha512_256_block_boundary_112() {
    assert_eq!(sha512_256_hex(&pattern(112)), "468a00c6f938065156bfddf56b22592f569052587264673bc893e92cd1953953");
}

#[test]
fn sha512_256_block_boundary_128() {
    assert_eq!(sha512_256_hex(&pattern(128)), "5e14bd0208397b56f5f1b3afb8e48bfcce3c7312684a46bbe9b210503680e547");
}

#[test]
fn sha512_256_block_boundary_239() {
    assert_eq!(sha512_256_hex(&pattern(239)), "a532f50742de4eeb13a3cf3f57e1bb0419b808f98dab375663370328f155a7db");
}

#[test]
fn sha512_256_block_boundary_240() {
    assert_eq!(sha512_256_hex(&pattern(240)), "50bf285d854644fdb23f955a2f6b19ee739082647901b3355c2f57815d9a6af6");
}

#[test]
fn sha512_256_long_message() {
    assert_eq!(sha512_256_hex(&pattern(1000)), "14271b3d36ca983ae2da2693d995fe68412c0bd5394ec2f05b763586db6e24fd");
}

#[test]
fn sha512_256_chunked_writes_match_one_write() {
    let m = pattern(777);
    let mut h = Sha512_256Hasher::new();
    for chunk in [&m[..1], &m[1..63], &m[63..64], &m[64..300], &m[300..300], &m[300..777]] {
        h.write(chunk);
    }
    assert_eq!(hex(&h.finish()), sha512_256_hex(&m));
    assert_eq!(sha512_256_hex(&m), "e7d43f61040baacc46ebce0ad2e61230a57d20e9f46bfbdc385ef523a34e0d74");
}

#[test]
fn sha512_256_empty_writes_change_nothing() {
    let mut h = Sha512_256Hasher::new();
    h.write(&[]);
    h.write(b"ab");
    h.write(&[]);
    h.write(b"c");
    h.write(&[]);
    assert_eq!(hex(&h.finish()), "53048e2681941ef99b2e29b76b4c7dabe4c2d0c634fc6d46e0e2f13107e7af23");
}

fn sha3_384_hex(m: &[u8]) -> String {
    let mut h = Sha3_384Hasher::new();
    h.write(m);
    hex(&h.finish())
}

#[test]
fn sha3_384_known_answer_empty() {
    assert_eq!(sha3_384_hex(b""), "0c63a75b845e4f7d01107d852e4c2485c51a50aaaa94fc61995e71bbee983a2ac3713831264adb47fb6bd1e058d5f004");
}

#[test]
fn sha3_384_known_answer_abc() {
    assert_eq!(sha3_384_hex(b"abc"), "ec01498288516fc926459f58e2c6ad8df9b473cb0fc08c2596da7cf0e49be4b298d88cea927ac7f539f1edf228376d25");
}

#[test]
fn sha3_384_known_answer_fox() {
    assert_eq!(sha3_384_hex(b"The quick brown fox jumps over the lazy dog"), "7063465e08a93bce31cd89d2e3ca8f602498696e253592ed26f07bf7e703cf328581e1471a7ba7ab119b1a9ebdf8be41");
}

#[test]
fn sha3_384_block_boundary_102() {
    assert_eq!(sha3_384_hex(&pattern(102)), "0a2e63644403490b77d9db3abf13948f2b52ace94c75f2851098d74e408e34685cf0ecb8eb83e9c533f83a46082be030");
}

#[test]
fn sha3_384_block_boundary_103() {
    assert_eq!(sha3_384_hex(&pattern(103)), "278a05f99eb8cce92583ed5cc7f0f1db39e15c6fe7eec3470d8faac66606dd9415eff75920fd39e03e08452c74aa3d76");
}

#[test]
fn sha3_384_block_boundary_104() {
    assert_eq!(sha3_384_hex(&pattern(104)), "f89b2364b91de0445508314c65afc20664d0a3e01544d4e13e87d798ec341b07f146a3e71a5c1919e8061f733a8ffe4a");
}

#[test]
fn sha3_384_block_boundary_105() {
    assert_eq!(sha3_384_hex(&pattern(105)), "aa637e2b76610e009335ce271afd9348f499e85239d86c220077827ab29d9975a0479d7a0ffa95bded7c3446b5bcd0b0");
}

#[test]
fn sha3_384_block_boundary_207() {
    assert_eq!(sha3_384_hex(&pattern(207)), "b7e98b84264ce3cc4030ae4a40bc4be441dd687f1d6b02005b67f05ba0cf0cc16462625526e45e562e268309030966b7");
}

#[test]
fn sha3_384_block_boundary_208() {
    assert_eq!(sha3_384_hex(&pattern(208)), "b71df14a34242424bda2f34c51ba6c1909cdd4c87b249c3e2882ad2f0a4bdac003722e7fc044266521f4de87e467a77a");
}

#[test]
fn sha3_384_long_message() {
    assert_eq!(sha3_384_hex(&pattern(1000)), "01269eed23d8f1c00d333933989211974c16fed038dfde30f8514168ae13e8409f565dbe4d81399b6ed23db9762f7989");
}

#[test]
fn sha3_384_chunked_writes_match_one_write() {
    let m = pattern(777);
    let mut h = Sha3_384Hasher::new();
    for chunk in [&m[..1], &m[1..63], &m[63..64], &m[64..300], &m[300..300], &m[300..777]] {
        h.write(chunk);
    }
    assert_eq!(hex(&h.finish()), sha3_384_hex(&m));
    assert_eq!(sha3_384_hex(&m), "c345bbe682ab773182353d777c4eb4c3a97d0047fcfc5834ceba7dfa720deae29f78473a0c998d6d86cb7e11f5803694");
}

#[test]
fn sha3_384_empty_writes_change_nothing() {
    let mut h = Sha3_384Hasher::new();
    h.write(&[]);
    h.write(b"ab");
    h.write(&[]);
    h.write(b"c");
    h.write(&[]);
    assert_eq!(hex(&h.finish()), "ec01498288516fc926459f58e2c6ad8df9b473cb0fc08c2596da7cf0e49be4b298d88cea927ac7f539f1edf228376d25");
}

#[test]
fn sha256_million_a() {
    let m = vec![b'a'; 1_000_000];
    assert_eq!(sha256_hex(&m), "cdc76e5c9914fb9281a1c7e284d73e67f1809a48a497200e046d39ccc7112cd0");
}

#[test]
fn sha384_multi_block_in_one_write() {
    let m = pattern(4096);
    assert_eq!(sha384_hex(&m), "91159ea22fea15ccd45c4669175f92fc0c570e26d37c244e8196880f98785e6df4708aebb73ea34398fdcec80f684b9c");
}

#[test]
fn duplicated_hasher_continues_independently() {
    let mut h = Sha256Hasher::new();
    h.write(b"hello");
    let mut snapshot = h.duplicate();
    h.write(b" world");
    snapshot.write(b" there");
    assert_eq!(hex(&h.finish()), "b94d27b9934d3e08a52e52d7da7dabfac484efe37a5380ee9088f7ace2efcde9");
    assert_eq!(hex(&snapshot.finish()), "12998c017066eb0d2a70b94e6ed3192985855ce390f321bbdb832022888bd251");
}

#[test]
fn duplicated_sha3_hasher_keeps_buffered_bytes() {
    let m = pattern(150);
    let mut h = Sha3_384Hasher::new();
    h.write(&m[..120]);
    let mut snapshot = h.duplicate();
    h.write(&m[120..]);
    snapshot.write(&m[120..]);
    assert_eq!(hex(&h.finish()), hex(&snapshot.finish()));
}

#[test]
fn sha256_buffer_and_counter_follow_writes() {
    let mut h = Sha256Hasher::new();
    h.write(&pattern(70));
    assert_eq!(h.size(), 70);
    assert_eq!(&h.pad_buffer()[..6], &pattern(70)[64..]);
    assert_eq!(h.zero_padding_length(), 50);
}

#[test]
fn word_operations_on_both_widths() {
    assert_eq!(<u32 as Word>::add_wrapping(0xFFFF_FFFF, 2), 1);
    assert_eq!(<u64 as Word>::add_wrapping(u64::MAX, 3), 2);
    assert_eq!(<u32 as Word>::rotr(0x0000_0001, 1), 0x8000_0000);
    assert_eq!(<u64 as Word>::rotr(0x0000_0000_0000_0001, 4), 0x1000_0000_0000_0000);
    assert_eq!(<u32 as Word>::read_be(&[0x01, 0x02, 0x03, 0x04, 0x05], 1), 0x0203_0405);
    assert_eq!(<u64 as Word>::read_be(&[1, 2, 3, 4, 5, 6, 7, 8], 0), 0x0102_0304_0506_0708);
    assert_eq!(<u32 as Word>::to_be_bytes::<6>(&[0x0A0B_0C0D, 0x1122_3344, 0, 0, 0, 0, 0, 0]), [0x0A, 0x0B, 0x0C, 0x0D, 0x11, 0x22]);
}

#[test]
fn state_depends_only_on_complete_blocks() {
    let m = pattern(300);
    let mut whole = Sha512Hasher::new();
    whole.write(&m[..256]);
    let mut split = Sha512Hasher::new();
    split.write(&m[..100]);
    split.write(&m[100..290]);
    assert_eq!(split.size(), 290);
    assert_eq!(split.state().h, whole.state().h);

    let mut sponge_a = Sha3_384Hasher::new();
    sponge_a.write(&m[..208]);
    let mut sponge_b = Sha3_384Hasher::new();
    sponge_b.write(&m[..250]);
    assert_eq!(sponge_b.size(), 250);
    assert_eq!(sponge_a.state().squeeze(), sponge_b.state().squeeze());
}
