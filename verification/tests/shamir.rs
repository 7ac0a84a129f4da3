use secure_cloud::crypto::random;
use secure_cloud::shamir::{create_shards, decrypt_shard, encrypt_shard, rebuild_grouped_shards};
use secure_cloud::VaultError;

#[test]
fn any_two_of_n_shards_restore_the_secret() {
    let secret = random(64);
    for n in 2u8..=8 {
        let shards = create_shards(&secret, n);
        assert_eq!(shards.len(), n as usize);
        for shard in &shards {
            assert_eq!(shard.len(), 113);
        }
        for i in 0..shards.len() {
            for j in 0..shards.len() {
                if i != j {
                    let subset = vec![shards[i].clone(), shards[j].clone()];
                    assert_eq!(rebuild_grouped_shards(&subset), Some(secret.clone()));
                }
            }
        }
    }
}

#[test]
fn one_shard_is_not_enough() {
    let secret = random(64);
    let shards = create_shards(&secret, 4);
    let alone = vec![shards[0].clone()];
    let restored = rebuild_grouped_shards(&alone);
    assert!(restored.is_none() || restored != Some(secret));
}

#[test]
fn same_shard_twice_is_not_enough() {
    let secret = random(64);
    let shards = create_shards(&secret, 3);
    let twice = vec![shards[1].clone(), shards[1].clone()];
    let restored = rebuild_grouped_shards(&twice);
    assert!(restored.is_none() || restored != Some(secret));
}

#[test]
fn tampered_shard_is_rejected() {
    let secret = random(64);
    let shards = create_shards(&secret, 2);
    // Corrupt the key-share part of one shard: the restored key is wrong,
    // so no shard's sealed payload opens.
    let mut bad = shards[0].clone();
    bad[10] ^= 1;
    assert_eq!(rebuild_grouped_shards(&vec![bad, shards[1].clone()]), None);
}

#[test]
fn inconsistent_shards_are_rejected() {
    let first = create_shards(&random(64), 2);
    let second = create_shards(&random(64), 2);
    let mixed = vec![first[0].clone(), second[1].clone()];
    assert_eq!(rebuild_grouped_shards(&mixed), None);
}

#[test]
fn wrong_width_shards_are_rejected() {
    let shards = vec![vec![1u8; 10], vec![2u8; 10]];
    assert_eq!(rebuild_grouped_shards(&shards), None);
}

#[test]
fn shard_wrapping_roundtrip() {
    let password = b"P@ssw0rd!longX".to_vec();
    let shard = random(113);
    let (sealed, salt) = encrypt_shard(&password, &shard);
    assert_eq!(salt.len(), 16);
    assert_eq!(decrypt_shard(&password, &sealed, &salt), Ok(shard));
    assert_eq!(
        decrypt_shard(&b"wrongPassword!".to_vec(), &sealed, &salt),
        Err(VaultError::AuthFail)
    );
}
