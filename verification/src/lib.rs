pub mod admission;
pub mod attestation;
pub mod bytes;
pub mod catalog;
pub mod catalog_laws;
pub mod chat;
pub mod chutes;
pub mod chutes_call;
pub mod chutes_e2ee;
pub mod chutes_flow;
pub mod chutes_laws;
pub mod connections;
pub mod crypto_e2ee;
pub mod crypto_laws;
pub mod cuckoofilter;
pub mod currency;
pub mod dns;
pub mod dns_laws;
pub mod dos;
pub mod dos_laws;
pub mod enclave_laws;
pub mod failover;
pub mod health;
pub mod http;
pub mod i18n;
pub mod infomaniak;
pub mod json;
pub mod keys;
pub mod landing_page;
pub mod models;
pub mod models_laws;
pub mod models_list;
pub mod models_page;
pub mod nearai;
pub mod nearai_e2ee;
pub mod nearai_models;
pub mod nearai_stream;
pub mod nearai_tls;
pub mod order;
pub mod page_laws;
pub mod primitives;
pub mod provider_laws;
pub mod providers;
pub mod providers_page;
pub mod query;
pub mod query_laws;
pub mod ranking;
pub mod redaction;
pub mod redaction_laws;
pub mod redaction_passes;
pub mod redaction_roundtrip;
pub mod redpill;
pub mod request_laws;
pub mod response;
pub mod response_laws;
pub mod restore_laws;
pub mod router;
pub mod selection;
pub mod service_laws;
pub mod show_laws;
pub mod state;
pub mod stream_laws;
pub mod table;
pub mod text;
pub mod text_laws;
pub mod time;
pub mod timing;
pub mod tinfoil;
pub mod tinfoil_relay;
