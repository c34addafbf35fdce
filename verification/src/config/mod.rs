//! The settings of the application, in the clear and as they are stored.

pub mod keystore;

use crate::config::keystore::{decrypted, encrypted, gcm_max, KeyStore};
use crate::error::Error;
use crate::text::{clone_opt_text, opt_text, text_eq};
use vstd::prelude::*;
use vstd::string::*;
use vstd::utf8::*;

verus! {

/// Settings of speech recognition.
#[derive(Debug)]
pub struct AsrConfig {
    pub provider: String,
    pub api_key: String,
    pub workspace_id: Option<String>,
    pub file_model: String,
    pub realtime_model: String,
}

/// Settings of translation.
#[derive(Debug)]
pub struct TranslateConfig {
    pub provider: String,
    pub model: String,
    pub api_key: String,
    pub target_lang: String,
}

/// Settings of the object store that audio files are uploaded to.
#[derive(Debug)]
pub struct OssConfig {
    pub endpoint: String,
    pub bucket: String,
    pub access_key_id: String,
    pub access_key_secret: String,
    pub path_prefix: Option<String>,
}

/// All settings.
#[derive(Debug)]
pub struct AppConfig {
    pub asr: AsrConfig,
    pub translate: TranslateConfig,
    pub oss: Option<OssConfig>,
}

/// The texts of [`AsrConfig`].
pub struct AsrConfigView {
    pub provider: Seq<char>,
    pub api_key: Seq<char>,
    pub workspace_id: Option<Seq<char>>,
    pub file_model: Seq<char>,
    pub realtime_model: Seq<char>,
}

/// The texts of [`TranslateConfig`].
pub struct TranslateConfigView {
    pub provider: Seq<char>,
    pub model: Seq<char>,
    pub api_key: Seq<char>,
    pub target_lang: Seq<char>,
}

/// The texts of [`OssConfig`].
pub struct OssConfigView {
    pub endpoint: Seq<char>,
    pub bucket: Seq<char>,
    pub access_key_id: Seq<char>,
    pub access_key_secret: Seq<char>,
    pub path_prefix: Option<Seq<char>>,
}

/// The texts of [`AppConfig`].
pub struct AppConfigView {
    pub asr: AsrConfigView,
    pub translate: TranslateConfigView,
    pub oss: Option<OssConfigView>,
}

impl View for AsrConfig {
    type V = AsrConfigView;

    open spec fn view(&self) -> AsrConfigView {
        AsrConfigView {
            provider: self.provider@,
            api_key: self.api_key@,
            workspace_id: opt_text(self.workspace_id),
            file_model: self.file_model@,
            realtime_model: self.realtime_model@,
        }
    }
}

impl View for TranslateConfig {
    type V = TranslateConfigView;

    open spec fn view(&self) -> TranslateConfigView {
        TranslateConfigView {
            provider: self.provider@,
            model: self.model@,
            api_key: self.api_key@,
            target_lang: self.target_lang@,
        }
    }
}

impl View for OssConfig {
    type V = OssConfigView;

    open spec fn view(&self) -> OssConfigView {
        OssConfigView {
            endpoint: self.endpoint@,
            bucket: self.bucket@,
            access_key_id: self.access_key_id@,
            access_key_secret: self.access_key_secret@,
            path_prefix: opt_text(self.path_prefix),
        }
    }
}

impl View for AppConfig {
    type V = AppConfigView;

    open spec fn view(&self) -> AppConfigView {
        AppConfigView {
            asr: self.asr@,
            translate: self.translate@,
            oss: match self.oss {
                Some(o) => Some(o@),
                None => None,
            },
        }
    }
}

impl Clone for AsrConfig {
    fn clone(&self) -> (r: Self)
        ensures
            r == *self,
    {
        AsrConfig {
            provider: self.provider.clone(),
            api_key: self.api_key.clone(),
            workspace_id: clone_opt_text(&self.workspace_id),
            file_model: self.file_model.clone(),
            realtime_model: self.realtime_model.clone(),
        }
    }
}

impl Clone for TranslateConfig {
    fn clone(&self) -> (r: Self)
        ensures
            r == *self,
    {
        TranslateConfig {
            provider: self.provider.clone(),
            model: self.model.clone(),
            api_key: self.api_key.clone(),
            target_lang: self.target_lang.clone(),
        }
    }
}

impl Clone for OssConfig {
    fn clone(&self) -> (r: Self)
        ensures
            r == *self,
    {
        OssConfig {
            endpoint: self.endpoint.clone(),
            bucket: self.bucket.clone(),
            access_key_id: self.access_key_id.clone(),
            access_key_secret: self.access_key_secret.clone(),
            path_prefix: clone_opt_text(&self.path_prefix),
        }
    }
}

impl Clone for AppConfig {
    fn clone(&self) -> (r: Self)
        ensures
            r == *self,
    {
        AppConfig {
            asr: self.asr.clone(),
            translate: self.translate.clone(),
            oss: match &self.oss {
                Some(o) => Some(o.clone()),
                None => None,
            },
        }
    }
}

/// The base address and the default model of a translation provider. An
/// unknown provider is taken for `openai`.
pub open spec fn provider_preset(provider: Seq<char>) -> (Seq<char>, Seq<char>) {
    if provider == "dashscope"@ {
        ("https://dashscope.aliyuncs.com/compatible-mode/v1"@, "qwen-turbo"@)
    } else if provider == "deepseek"@ {
        ("https://api.deepseek.com/v1"@, "deepseek-chat"@)
    } else if provider == "kimi"@ {
        ("https://api.moonshot.cn/v1"@, "moonshot-v1-8k"@)
    } else {
        ("https://api.openai.com/v1"@, "gpt-3.5-turbo"@)
    }
}

/// The base address and the default model of a translation provider.
pub fn translate_provider_preset(provider: &str) -> (r: (&'static str, &'static str))
    ensures
        (r.0@, r.1@) == provider_preset(provider@),
        provider@ == "dashscope"@ ==> r.0@
            == "https://dashscope.aliyuncs.com/compatible-mode/v1"@ && r.1@ == "qwen-turbo"@,
        provider@ == "deepseek"@ ==> r.0@ == "https://api.deepseek.com/v1"@ && r.1@
            == "deepseek-chat"@,
        provider@ == "kimi"@ ==> r.0@ == "https://api.moonshot.cn/v1"@ && r.1@
            == "moonshot-v1-8k"@,
        provider@ != "dashscope"@ && provider@ != "deepseek"@ && provider@ != "kimi"@ ==> r.0@
            == "https://api.openai.com/v1"@ && r.1@ == "gpt-3.5-turbo"@,
{
    proof {
        reveal_strlit("dashscope");
        reveal_strlit("deepseek");
        reveal_strlit("kimi");
        assert("dashscope"@[1] != "deepseek"@[1]);
    }
    if text_eq(provider, "dashscope") {
        ("https://dashscope.aliyuncs.com/compatible-mode/v1", "qwen-turbo")
    } else if text_eq(provider, "deepseek") {
        ("https://api.deepseek.com/v1", "deepseek-chat")
    } else if text_eq(provider, "kimi") {
        ("https://api.moonshot.cn/v1", "moonshot-v1-8k")
    } else {
        ("https://api.openai.com/v1", "gpt-3.5-turbo")
    }
}

/// The settings of a new installation.
pub open spec fn default_config() -> AppConfigView {
    AppConfigView {
        asr: AsrConfigView {
            provider: "dashscope"@,
            api_key: ""@,
            workspace_id: None,
            file_model: "qwen-audio-3.0-asr-flash-filetrans"@,
            realtime_model: "qwen-audio-3.0-asr-flash-streaming"@,
        },
        translate: TranslateConfigView {
            provider: "openai"@,
            model: "gpt-3.5-turbo"@,
            api_key: ""@,
            target_lang: "zh"@,
        },
        oss: None,
    }
}

impl Default for AppConfig {
    fn default() -> (r: Self)
        ensures
            r@ == default_config(),
            r.asr.provider@ == "dashscope"@,
            r.asr.api_key@.len() == 0,
            r.asr.workspace_id is None,
            r.asr.file_model@ == "qwen-audio-3.0-asr-flash-filetrans"@,
            r.asr.realtime_model@ == "qwen-audio-3.0-asr-flash-streaming"@,
            r.translate.provider@ == "openai"@,
            r.translate.model@ == "gpt-3.5-turbo"@,
            r.translate.api_key@.len() == 0,
            r.translate.target_lang@ == "zh"@,
            r.oss is None,
    {
        proof {
            reveal_strlit("");
        }
        AppConfig {
            asr: AsrConfig {
                provider: "dashscope".to_owned(),
                api_key: "".to_owned(),
                workspace_id: None,
                file_model: "qwen-audio-3.0-asr-flash-filetrans".to_owned(),
                realtime_model: "qwen-audio-3.0-asr-flash-streaming".to_owned(),
            },
            translate: TranslateConfig {
                provider: "openai".to_owned(),
                model: "gpt-3.5-turbo".to_owned(),
                api_key: "".to_owned(),
                target_lang: "zh".to_owned(),
            },
            oss: None,
        }
    }
}

/// The current name of a realtime model: one model was renamed, and the
/// service refuses its former name.
pub open spec fn current_realtime_model(model: Seq<char>) -> Seq<char> {
    if model == "qwen-audio-3.0-asr-flash"@ {
        "qwen-audio-3.0-asr-flash-streaming"@
    } else {
        model
    }
}

/// An API key in the clear, given as it is stored. An empty one is stored as
/// it is.
pub open spec fn opened_key(key: Seq<u8>, stored: Seq<char>) -> Result<Seq<char>, Seq<char>> {
    if stored.len() == 0 {
        Ok(stored)
    } else {
        decrypted(key, stored)
    }
}

/// `c` with the given API keys and its realtime model under the current name.
pub open spec fn with_keys(c: AppConfigView, asr: Seq<char>, tr: Seq<char>) -> AppConfigView {
    AppConfigView {
        asr: AsrConfigView {
            api_key: asr,
            realtime_model: current_realtime_model(c.asr.realtime_model),
            ..c.asr
        },
        translate: TranslateConfigView { api_key: tr, ..c.translate },
        ..c
    }
}

/// The settings in the clear, given as they are stored: the API keys are
/// decrypted, and a renamed model gets its current name.
pub open spec fn opened_config(key: Seq<u8>, stored: AppConfigView) -> Result<
    AppConfigView,
    Seq<char>,
> {
    match opened_key(key, stored.asr.api_key) {
        Err(e) => Err(e),
        Ok(asr) => match opened_key(key, stored.translate.api_key) {
            Err(e) => Err(e),
            Ok(tr) => Ok(with_keys(stored, asr, tr)),
        },
    }
}

/// Whether `stored` is a form in which the API key `plain` can be stored.
pub open spec fn seals_key(key: Seq<u8>, plain: Seq<char>, stored: Seq<char>) -> bool {
    if plain.len() == 0 {
        stored == plain
    } else {
        &&& exists|nonce: Seq<u8>|
            nonce.len() == 12 && stored == #[trigger] encrypted(key, nonce, plain)
        &&& stored.len() > 0
        &&& decrypted(key, stored) == Ok::<Seq<char>, Seq<char>>(plain)
    }
}

/// Whether `stored` is a form in which the settings `plain` can be stored:
/// the API keys are encrypted, everything else is as it was.
pub open spec fn seals_config(key: Seq<u8>, plain: AppConfigView, stored: AppConfigView) -> bool {
    &&& seals_key(key, plain.asr.api_key, stored.asr.api_key)
    &&& seals_key(key, plain.translate.api_key, stored.translate.api_key)
    &&& stored.asr == (AsrConfigView { api_key: stored.asr.api_key, ..plain.asr })
    &&& stored.translate == (TranslateConfigView {
        api_key: stored.translate.api_key,
        ..plain.translate
    })
    &&& stored.oss == plain.oss
}

/// Whether an API key is short enough to be encrypted.
pub open spec fn key_fits(plain: Seq<char>) -> bool {
    encode_utf8(plain).len() <= gcm_max()
}

fn open_key(keystore: &KeyStore, stored: &String) -> (r: Result<String, Error>)
    ensures
        match r {
            Ok(s) => opened_key(keystore.key(), stored@) == Ok::<Seq<char>, Seq<char>>(s@),
            Err(e) => e is Config && opened_key(keystore.key(), stored@) == Err::<
                Seq<char>,
                Seq<char>,
            >(e->Config_0@),
        },
{
    if stored.as_str().is_empty() {
        Ok(stored.clone())
    } else {
        keystore.decrypt(stored.as_str())
    }
}

fn seal_key(keystore: &KeyStore, plain: &String) -> (r: Result<String, Error>)
    ensures
        match r {
            Ok(s) => (plain@.len() == 0 || key_fits(plain@)) && seals_key(
                keystore.key(),
                plain@,
                s@,
            ),
            Err(e) => plain@.len() > 0 && !key_fits(plain@) && e is Config && e->Config_0@
                == "Encryption failed: "@ + "aead::Error"@,
        },
{
    if plain.as_str().is_empty() {
        Ok(plain.clone())
    } else {
        keystore.encrypt(plain.as_str())
    }
}

impl AppConfig {
    /// The settings in the clear, given as they are stored.
    pub fn load(stored: &AppConfig, keystore: &KeyStore) -> (r: Result<AppConfig, Error>)
        ensures
            match r {
                Ok(c) => opened_config(keystore.key(), stored@) == Ok::<AppConfigView, Seq<char>>(
                    c@,
                ),
                Err(e) => e is Config && opened_config(keystore.key(), stored@) == Err::<
                    AppConfigView,
                    Seq<char>,
                >(e->Config_0@),
            },
            r matches Ok(c) ==> {
                &&& c.asr.provider == stored.asr.provider
                &&& c.asr.workspace_id == stored.asr.workspace_id
                &&& c.asr.file_model == stored.asr.file_model
                &&& stored.asr.realtime_model@ != "qwen-audio-3.0-asr-flash"@
                    ==> c.asr.realtime_model == stored.asr.realtime_model
                &&& stored.asr.realtime_model@ == "qwen-audio-3.0-asr-flash"@
                    ==> c.asr.realtime_model@ == "qwen-audio-3.0-asr-flash-streaming"@
                &&& stored.asr.api_key@.len() == 0 ==> c.asr.api_key@.len() == 0
                &&& stored.asr.api_key@.len() > 0 ==> decrypted(
                    keystore.key(),
                    stored.asr.api_key@,
                ) == Ok::<Seq<char>, Seq<char>>(c.asr.api_key@)
                &&& c.translate.provider == stored.translate.provider
                &&& c.translate.model == stored.translate.model
                &&& c.translate.target_lang == stored.translate.target_lang
                &&& stored.translate.api_key@.len() == 0 ==> c.translate.api_key@.len() == 0
                &&& stored.translate.api_key@.len() > 0 ==> decrypted(
                    keystore.key(),
                    stored.translate.api_key@,
                ) == Ok::<Seq<char>, Seq<char>>(c.translate.api_key@)
                &&& c.oss == stored.oss
            },
            (stored.asr.api_key@.len() == 0 || decrypted(
                keystore.key(),
                stored.asr.api_key@,
            ) is Ok) && (stored.translate.api_key@.len() == 0 || decrypted(
                keystore.key(),
                stored.translate.api_key@,
            ) is Ok) ==> r is Ok,
    {
        let mut config = stored.clone();
        if text_eq(config.asr.realtime_model.as_str(), "qwen-audio-3.0-asr-flash") {
            config.asr.realtime_model = "qwen-audio-3.0-asr-flash-streaming".to_owned();
        }
        match open_key(keystore, &stored.asr.api_key) {
            Ok(k) => {
                config.asr.api_key = k;
            },
            Err(e) => {
                return Err(e);
            },
        }
        match open_key(keystore, &stored.translate.api_key) {
            Ok(k) => {
                config.translate.api_key = k;
            },
            Err(e) => {
                return Err(e);
            },
        }
        Ok(config)
    }

    /// The form in which the settings are stored.
    pub fn save(&self, keystore: &KeyStore) -> (r: Result<AppConfig, Error>)
        ensures
            match r {
                Ok(c) => key_fits_or_empty(self@.asr.api_key) && key_fits_or_empty(
                    self@.translate.api_key,
                ) && seals_config(keystore.key(), self@, c@),
                Err(e) => !(key_fits_or_empty(self@.asr.api_key) && key_fits_or_empty(
                    self@.translate.api_key,
                )) && e is Config && e->Config_0@ == "Encryption failed: "@ + "aead::Error"@,
            },
            r matches Ok(c) ==> {
                &&& c.asr.provider == self.asr.provider
                &&& c.asr.workspace_id == self.asr.workspace_id
                &&& c.asr.file_model == self.asr.file_model
                &&& c.asr.realtime_model == self.asr.realtime_model
                &&& self.asr.api_key@.len() == 0 <==> c.asr.api_key@.len() == 0
                &&& self.asr.api_key@.len() > 0 ==> decrypted(keystore.key(), c.asr.api_key@)
                    == Ok::<Seq<char>, Seq<char>>(self.asr.api_key@)
                &&& c.translate.provider == self.translate.provider
                &&& c.translate.model == self.translate.model
                &&& c.translate.target_lang == self.translate.target_lang
                &&& self.translate.api_key@.len() == 0 <==> c.translate.api_key@.len() == 0
                &&& self.translate.api_key@.len() > 0 ==> decrypted(
                    keystore.key(),
                    c.translate.api_key@,
                ) == Ok::<Seq<char>, Seq<char>>(self.translate.api_key@)
                &&& c.oss == self.oss
            },
    {
        let mut config = self.clone();
        match seal_key(keystore, &self.asr.api_key) {
            Ok(k) => {
                config.asr.api_key = k;
            },
            Err(e) => {
                return Err(e);
            },
        }
        match seal_key(keystore, &self.translate.api_key) {
            Ok(k) => {
                config.translate.api_key = k;
            },
            Err(e) => {
                return Err(e);
            },
        }
        Ok(config)
    }
}

/// Whether an API key can be stored.
pub open spec fn key_fits_or_empty(plain: Seq<char>) -> bool {
    plain.len() == 0 || key_fits(plain)
}

/// What was saved loads as it was, under the same key; only a realtime model
/// under its former name comes back under the current one.
pub proof fn saved_config_loads_back(key: Seq<u8>, plain: AppConfigView, stored: AppConfigView)
    requires
        seals_config(key, plain, stored),
    ensures
        opened_config(key, stored) == Ok::<AppConfigView, Seq<char>>(
            with_keys(plain, plain.asr.api_key, plain.translate.api_key),
        ),
        plain.asr.realtime_model != "qwen-audio-3.0-asr-flash"@ ==> opened_config(key, stored)
            == Ok::<AppConfigView, Seq<char>>(plain),
        plain.asr.realtime_model == "qwen-audio-3.0-asr-flash"@ ==> opened_config(key, stored)
            == Ok::<AppConfigView, Seq<char>>(
            AppConfigView {
                asr: AsrConfigView {
                    realtime_model: "qwen-audio-3.0-asr-flash-streaming"@,
                    ..plain.asr
                },
                ..plain
            },
        ),
{
}

/// Loading changes no settings but the keys and a model's former name: what is
/// stored without keys and under the current name loads as it is.
pub proof fn settings_without_keys_load_as_they_are(key: Seq<u8>, stored: AppConfigView)
    requires
        stored.asr.api_key.len() == 0,
        stored.translate.api_key.len() == 0,
        stored.asr.realtime_model != "qwen-audio-3.0-asr-flash"@,
    ensures
        opened_config(key, stored) == Ok::<AppConfigView, Seq<char>>(stored),
{
}

/// What was loaded, saved and loaded again is what was loaded the first time.
pub proof fn loading_settles_the_settings(
    key: Seq<u8>,
    stored: AppConfigView,
    opened: AppConfigView,
    sealed: AppConfigView,
)
    requires
        opened_config(key, stored) == Ok::<AppConfigView, Seq<char>>(opened),
        seals_config(key, opened, sealed),
    ensures
        opened_config(key, sealed) == Ok::<AppConfigView, Seq<char>>(opened),
{
    reveal_strlit("qwen-audio-3.0-asr-flash");
    reveal_strlit("qwen-audio-3.0-asr-flash-streaming");
}

} // verus!
