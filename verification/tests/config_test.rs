use aes_gcm::aead::{Aead, KeyInit};
use base64::Engine;
use pick_up_sound_text::config::keystore::{
    machine_id_of_guid, machine_id_of_listing, new_salt, KeyStore,
};
use pick_up_sound_text::config::{translate_provider_preset, AppConfig, OssConfig};
use pick_up_sound_text::error::Error;

fn keystore() -> KeyStore {
    match KeyStore::new(b"default-machine-id", b"0123456789abcdef0123456789abcdef") {
        Ok(k) => k,
        Err(e) => panic!("{}", e.message()),
    }
}

fn config_error(r: Result<String, Error>) -> String {
    match r {
        Err(Error::Config(m)) => m,
        other => panic!("expected a configuration error, got {:?}", other),
    }
}

#[test]
fn test_encrypt_decrypt() {
    let keystore = keystore();
    let plaintext = "test-api-key-12345";

    let encrypted = keystore.encrypt(plaintext).unwrap();
    let decrypted = keystore.decrypt(&encrypted).unwrap();

    assert_eq!(plaintext, decrypted);
    assert_ne!(plaintext, encrypted);
}

#[test]
fn two_encryptions_differ_and_decrypt_alike() {
    let keystore = keystore();
    let a = keystore.encrypt("密钥").unwrap();
    let b = keystore.encrypt("密钥").unwrap();
    assert_ne!(a, b);
    assert_eq!(keystore.decrypt(&a).unwrap(), "密钥");
    assert_eq!(keystore.decrypt(&b).unwrap(), "密钥");
    assert_eq!(keystore.decrypt(&keystore.encrypt("").unwrap()).unwrap(), "");
}

#[test]
fn the_stored_form_is_base64_of_nonce_and_ciphertext() {
    let keystore = keystore();
    let nonce = [7u8; 12];
    let stored = keystore.encrypt_with_nonce(&nonce, "secret").unwrap();
    let bytes = base64::engine::general_purpose::STANDARD.decode(&stored).unwrap();
    assert_eq!(&bytes[..12], &nonce);
    assert_eq!(bytes.len(), 12 + 6 + 16);

    let mut key = [0u8; 32];
    argon2::Argon2::default()
        .hash_password_into(
            b"default-machine-id",
            b"0123456789abcdef0123456789abcdef",
            &mut key,
        )
        .unwrap();
    let cipher = aes_gcm::Aes256Gcm::new(aes_gcm::Key::<aes_gcm::Aes256Gcm>::from_slice(&key));
    let plain = cipher.decrypt(aes_gcm::Nonce::from_slice(&nonce), &bytes[12..]).unwrap();
    assert_eq!(plain, b"secret");
}

#[test]
fn another_machine_or_salt_cannot_decrypt() {
    let stored = keystore().encrypt("secret").unwrap();
    let other = KeyStore::new(b"another-machine", b"0123456789abcdef0123456789abcdef").unwrap();
    assert_eq!(config_error(other.decrypt(&stored)), "Decryption failed: aead::Error");
}

#[test]
fn what_cannot_be_decrypted_is_told_apart() {
    let keystore = keystore();
    assert!(config_error(keystore.decrypt("***")).starts_with("Base64 decode failed: "));
    let short = base64::engine::general_purpose::STANDARD.encode([1u8; 11]);
    assert_eq!(config_error(keystore.decrypt(&short)), "Invalid ciphertext length");
    let forged = base64::engine::general_purpose::STANDARD.encode([1u8; 40]);
    assert_eq!(config_error(keystore.decrypt(&forged)), "Decryption failed: aead::Error");
}

#[test]
fn bytes_that_are_no_text_are_refused() {
    let mut key = [0u8; 32];
    argon2::Argon2::default()
        .hash_password_into(
            b"default-machine-id",
            b"0123456789abcdef0123456789abcdef",
            &mut key,
        )
        .unwrap();
    let cipher = aes_gcm::Aes256Gcm::new(aes_gcm::Key::<aes_gcm::Aes256Gcm>::from_slice(&key));
    let nonce = [3u8; 12];
    let sealed =
        cipher.encrypt(aes_gcm::Nonce::from_slice(&nonce), &[0xffu8, 0xfe][..]).unwrap();
    let mut bytes = nonce.to_vec();
    bytes.extend_from_slice(&sealed);
    let stored = base64::engine::general_purpose::STANDARD.encode(bytes);
    assert!(config_error(keystore().decrypt(&stored)).starts_with("UTF-8 decode failed: "));
}

#[test]
fn a_short_salt_is_refused() {
    match KeyStore::new(b"machine", b"short") {
        Err(Error::Config(m)) => assert_eq!(m, "Key derivation failed: salt is too short"),
        _ => panic!("expected a configuration error"),
    }
}

#[test]
fn salts_are_fresh() {
    let a = new_salt();
    let b = new_salt();
    assert_eq!(a.len(), 32);
    assert_eq!(b.len(), 32);
    assert_ne!(a, b);
}

#[test]
fn the_machine_id_is_read_from_its_listing() {
    let listing = "+-o Root\n  | {\n  |   \"IOPlatformUUID\" = \"ABCD-1234\"\r\n  | }\n";
    assert_eq!(machine_id_of_listing(listing).unwrap(), b"ABCD-1234");
    match machine_id_of_listing("nothing here") {
        Err(Error::Config(m)) => assert_eq!(m, "IOPlatformUUID not found"),
        _ => panic!("expected a configuration error"),
    }
    assert!(machine_id_of_listing("\"IOPlatformUUID\" =").is_err());
    assert_eq!(machine_id_of_guid(" 1234-abcd \n"), b"1234-abcd");
}

#[test]
fn providers_have_presets() {
    assert_eq!(
        translate_provider_preset("openai"),
        ("https://api.openai.com/v1", "gpt-3.5-turbo")
    );
    assert_eq!(
        translate_provider_preset("dashscope"),
        ("https://dashscope.aliyuncs.com/compatible-mode/v1", "qwen-turbo")
    );
    assert_eq!(
        translate_provider_preset("deepseek"),
        ("https://api.deepseek.com/v1", "deepseek-chat")
    );
    assert_eq!(
        translate_provider_preset("kimi"),
        ("https://api.moonshot.cn/v1", "moonshot-v1-8k")
    );
    assert_eq!(
        translate_provider_preset("unknown"),
        ("https://api.openai.com/v1", "gpt-3.5-turbo")
    );
}

#[test]
fn the_default_settings_name_the_current_models() {
    let c = AppConfig::default();
    assert_eq!(c.asr.provider, "dashscope");
    assert_eq!(c.asr.api_key, "");
    assert_eq!(c.asr.workspace_id, None);
    assert_eq!(c.asr.file_model, "qwen-audio-3.0-asr-flash-filetrans");
    assert_eq!(c.asr.realtime_model, "qwen-audio-3.0-asr-flash-streaming");
    assert_eq!(c.translate.provider, "openai");
    assert_eq!(c.translate.model, "gpt-3.5-turbo");
    assert_eq!(c.translate.api_key, "");
    assert_eq!(c.translate.target_lang, "zh");
    assert!(c.oss.is_none());
}

#[test]
fn saved_settings_load_back() {
    let keystore = keystore();
    let mut c = AppConfig::default();
    c.asr.api_key = "asr-key".to_string();
    c.asr.workspace_id = Some("ws".to_string());
    c.asr.realtime_model = "qwen-audio-3.0-asr-flash".to_string();
    c.oss = Some(OssConfig {
        endpoint: "e".to_string(),
        bucket: "b".to_string(),
        access_key_id: "i".to_string(),
        access_key_secret: "s".to_string(),
        path_prefix: None,
    });
    let stored = c.save(&keystore).unwrap();
    assert_ne!(stored.asr.api_key, "asr-key");
    assert_eq!(stored.translate.api_key, "");
    assert_eq!(stored.asr.realtime_model, "qwen-audio-3.0-asr-flash");
    assert_eq!(stored.oss.as_ref().unwrap().access_key_secret, "s");

    let loaded = AppConfig::load(&stored, &keystore).unwrap();
    assert_eq!(loaded.asr.api_key, "asr-key");
    assert_eq!(loaded.translate.api_key, "");
    assert_eq!(loaded.asr.workspace_id.as_deref(), Some("ws"));
    assert_eq!(loaded.asr.realtime_model, "qwen-audio-3.0-asr-flash-streaming");
    assert_eq!(loaded.oss.unwrap().bucket, "b");
}

#[test]
fn settings_with_a_damaged_key_do_not_load() {
    let keystore = keystore();
    let mut c = AppConfig::default();
    c.translate.api_key = "AAAA".to_string();
    match AppConfig::load(&c, &keystore) {
        Err(Error::Config(m)) => assert_eq!(m, "Invalid ciphertext length"),
        _ => panic!("expected a configuration error"),
    }
}
