//! Detection, decoding and classification of QR codes in grayscale images.
//!
//! The pipeline locates candidate QR regions by scanning for finder-pattern
//! run-length signatures, tries a deterministic ladder of image transforms
//! against two external symbol decoders, classifies the decoded text, and
//! parses payment payloads (EMV TLV, URL and pipe-delimited schemes).

pub mod classify;
pub mod decoding;
pub mod detection;
pub mod emv;
pub mod gray;
pub mod mldetect;
pub mod payment;
pub mod preprocessing;
pub mod scanner;
pub mod text;

pub use classify::ContentType;
pub use decoding::{DecodeError, DecodedQR, ErrorCorrectionLevel, QRDecoder};
pub use detection::{DetectedQR, DetectorConfig, QRDetector};
pub use emv::EmvData;
pub use emv::EmvError;
pub use gray::Gray;
pub use payment::{PaymentFormat, PaymentInfo, PaymentParser};
pub use preprocessing::{ImageProcessor, ProcessingConfig};
pub use scanner::{QRError, QRResult, QRScanner, ScanResult};
