use padcipher::error::CipherError;
use padcipher::ledger::{acquire, commit};
use padcipher::run::{decrypt_run, encrypt_run};

#[test]
fn acquire_splits_the_pool_at_the_payload_length() {
    let pool = vec![0xAA, 0xBB, 0xCC, 0xDD, 0xEE];
    let acquisition = acquire(Some(pool), 3).ok().unwrap();
    assert_eq!(acquisition.used, vec![0xAA, 0xBB, 0xCC]);
    assert_eq!(acquisition.remaining, vec![0xDD, 0xEE]);
    let written = commit(acquisition);
    assert_eq!(written.archive, vec![0xAA, 0xBB, 0xCC]);
    assert_eq!(written.pool, Some(vec![0xDD, 0xEE]));
}

#[test]
fn exhausted_pool_is_removed() {
    let pool = vec![0x01, 0x02, 0x03];
    let acquisition = acquire(Some(pool), 3).ok().unwrap();
    assert_eq!(acquisition.used, vec![0x01, 0x02, 0x03]);
    assert_eq!(acquisition.remaining, Vec::<u8>::new());
    let written = commit(acquisition);
    assert_eq!(written.archive, vec![0x01, 0x02, 0x03]);
    assert_eq!(written.pool, None);
}

#[test]
fn short_pool_is_refused() {
    assert_eq!(
        acquire(Some(vec![1, 2]), 3).err(),
        Some(CipherError::InsufficientPad)
    );
    assert_eq!(
        acquire(Some(vec![]), 1).err(),
        Some(CipherError::InsufficientPad)
    );
}

#[test]
fn missing_pool_is_an_empty_pool() {
    assert_eq!(acquire(None, 1).err(), Some(CipherError::InsufficientPad));
    let acquisition = acquire(None, 0).ok().unwrap();
    assert_eq!(acquisition.used, Vec::<u8>::new());
    assert_eq!(acquisition.remaining, Vec::<u8>::new());
    assert_eq!(commit(acquisition).pool, None);
}

#[test]
fn empty_payload_takes_nothing() {
    let acquisition = acquire(Some(vec![9, 8, 7]), 0).ok().unwrap();
    assert_eq!(acquisition.used, Vec::<u8>::new());
    assert_eq!(acquisition.remaining, vec![9, 8, 7]);
    let written = commit(acquisition);
    assert_eq!(written.archive, Vec::<u8>::new());
    assert_eq!(written.pool, Some(vec![9, 8, 7]));
}

#[test]
fn runs_in_a_row_take_adjoining_parts() {
    let pool: Vec<u8> = (0..10u8).collect();
    let first = commit(acquire(Some(pool), 4).ok().unwrap());
    assert_eq!(first.archive, vec![0, 1, 2, 3]);
    let second = commit(acquire(first.pool, 5).ok().unwrap());
    assert_eq!(second.archive, vec![4, 5, 6, 7, 8]);
    let third = commit(acquire(second.pool, 1).ok().unwrap());
    assert_eq!(third.archive, vec![9]);
    assert_eq!(third.pool, None);
    assert_eq!(
        acquire(third.pool, 1).err(),
        Some(CipherError::InsufficientPad)
    );
}

#[test]
fn encrypt_run_takes_pad_and_gives_output() {
    let pool = vec![0x10, 0x10, 0x10, 0xDD, 0xEE];
    let run = encrypt_run(Some(pool), &[0x10, 0x11, 0x12], "+00=01\n+01=02\n")
        .ok()
        .unwrap();
    assert_eq!(run.output, vec![0x01, 0x02, 0xFF]);
    assert_eq!(run.commit.archive, vec![0x10, 0x10, 0x10]);
    assert_eq!(run.commit.pool, Some(vec![0xDD, 0xEE]));
}

#[test]
fn encrypt_run_with_exact_pool_removes_it() {
    let run = encrypt_run(Some(vec![1, 2, 3]), &[1, 2, 3], "+00=2A\n")
        .ok()
        .unwrap();
    assert_eq!(run.output, vec![0x2A, 0x2A, 0x2A]);
    assert_eq!(run.commit.archive, vec![1, 2, 3]);
    assert_eq!(run.commit.pool, None);
}

#[test]
fn encrypt_run_checks_the_pool_before_the_table() {
    assert_eq!(
        encrypt_run(Some(vec![1, 2]), &[1, 2, 3], "+00=zz\n").err(),
        Some(CipherError::InsufficientPad)
    );
    assert_eq!(
        encrypt_run(None, &[1], "+00=01\n").err(),
        Some(CipherError::InsufficientPad)
    );
    assert_eq!(
        encrypt_run(Some(vec![1, 2, 3]), &[1, 2, 3], "+00=zz\n").err(),
        Some(CipherError::Parse)
    );
}

#[test]
fn decrypt_run_takes_pad_and_gives_output() {
    let pool = vec![0x10, 0x20, 0x30, 0x40];
    let run = decrypt_run(Some(pool), &[0x01, 0x02, 0x03], "+00=01\n+01=02\n-01=03\n")
        .ok()
        .unwrap();
    assert_eq!(run.output, vec![0x10, 0x21, 0x2F]);
    assert_eq!(run.commit.archive, vec![0x10, 0x20, 0x30]);
    assert_eq!(run.commit.pool, Some(vec![0x40]));
}

#[test]
fn decrypt_run_fails_in_order() {
    assert_eq!(
        decrypt_run(Some(vec![1]), &[1, 2], "+ZZ=01\n").err(),
        Some(CipherError::InsufficientPad)
    );
    assert_eq!(
        decrypt_run(Some(vec![1, 2]), &[9, 9], "+ZZ=01\n").err(),
        Some(CipherError::Parse)
    );
    assert_eq!(
        decrypt_run(Some(vec![1, 2]), &[9, 9], "+00=01\n").err(),
        Some(CipherError::Lookup)
    );
    assert_eq!(
        decrypt_run(Some(vec![1, 2]), &[1, 2], "+00=01\n*00=02\n").err(),
        Some(CipherError::InvalidOperator)
    );
}

#[test]
fn runs_undo_each_other() {
    let table = "+00=00\n+01=01\n-01=02\n+02=03\n-02=04\n";
    let pool = vec![0x50, 0x60, 0x70, 0x80, 0x90];
    let payload = [0x51, 0x5E, 0x70, 0x82];
    let coded = encrypt_run(Some(pool.clone()), &payload, table).ok().unwrap();
    assert_eq!(coded.output, vec![0x01, 0x04, 0x00, 0x03]);
    let plain = decrypt_run(Some(pool), &coded.output, table).ok().unwrap();
    assert_eq!(plain.output, payload.to_vec());
    assert_eq!(plain.commit.archive, coded.commit.archive);
    assert_eq!(plain.commit.pool, Some(vec![0x90]));
}
