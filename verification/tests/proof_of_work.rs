use pow_sha256::network_byte_order::Ne;
use pow_sha256::network_byte_order::ToNe;
use pow_sha256::Config;
use pow_sha256::PoW;

const DIFFICULTY: u128 = 0xff000000000000000000000000000000;

const SALT: &str = "79ziepia7vhjgviiwjhnend3ofjqocsi2winc4ptqhmkvcajihywxcizewvckg9h6gs4j83v9";

#[test]
fn proof_of_work_base_functionality() {
    // Let's prove we did work targeting a phrase.
    let phrase = b"Corver bandar palladianism retroform.".to_vec();
    let config = Config { salt: SALT.to_string() };
    let pw = config.prove_work_with_threshold(&phrase, DIFFICULTY).unwrap();
    assert!(config.calculate(&pw, &phrase).unwrap() >= DIFFICULTY);
}

#[test]
fn proof_of_work_double_pow() {
    let phrase = "Corver bandar palladianism retroform.".to_owned();
    let config = Config { salt: SALT.to_string() };
    let pow = config.prove_work_with_threshold(&phrase, DIFFICULTY).unwrap();
    let powpow: PoW<PoW<String>> = config.prove_work_with_threshold(&pow, DIFFICULTY).unwrap();
    assert!(config.calculate(&pow, &phrase).unwrap() >= DIFFICULTY);
    assert!(config.calculate(&powpow, &pow).unwrap() >= DIFFICULTY);
}

#[test]
fn ser_de() {
    let target: u8 = 1;
    let config = Config { salt: SALT.to_string() };
    let pw = config.prove_work_with_threshold(&target, DIFFICULTY).unwrap();
    let message: (u8, PoW<u8>) = (target, pw);
    let message_ser = message.serialize_to_vec();
    let (recieved_message, rest): ((u8, PoW<u8>), &[u8]) =
        <(u8, PoW<u8>) as Ne>::pick(&message_ser).unwrap();
    assert!(rest.is_empty());
    assert_eq!(recieved_message, message);
    assert!(config.calculate(&message.1, &message.0).unwrap() >= DIFFICULTY);
}
