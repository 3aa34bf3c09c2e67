use chatteroo::error::Error;
use chatteroo::network::Network;

#[test]
fn network_accepts_short_uppercase_ids() {
    for id in ["", "V", "VK", "VK7", "123"] {
        let n = Network::new(id.to_owned()).unwrap();
        assert_eq!(n.id(), id);
    }
}

#[test]
fn network_rejects_long_or_lowercase_ids() {
    for id in ["VK7A", "vk7", "VK-", "AÉ", "ABCDE"] {
        assert_eq!(Network::new(id.to_owned()), Err(Error::InvalidNetwork));
    }
}
