//! Why a container could not be decrypted.
use vstd::prelude::*;

verus! {

/// The reasons for which decryption fails.
#[derive(Debug, Clone, Copy, PartialEq, Eq, Structural)]
pub enum DecryptError {
    /// The master password is empty.
    EmptyPassword,
    /// Argon2 refused the password while the master key was derived.
    KekDerivation,
    /// The contents start with no known header.
    UnknownHeader,
    /// A version 1 container is not UTF-8 text.
    V1NotUtf8,
    /// A version 1 container has fewer than three segments.
    V1MissingSegments,
    /// The payload is not base64.
    PayloadBase64,
    /// A version 1 payload is too short for its salt, nonce and flag.
    V1TooShort,
    /// Argon2 refused the password while a version 1 key was derived.
    KeyDerivation,
    /// A version 1 payload failed authentication.
    V1Authentication,
    /// The plaintext is not a zlib stream.
    Inflate,
    /// No colon ends the extension region.
    NoExtensionEnd,
    /// The extension region is not UTF-8.
    ExtensionNotUtf8,
    /// A base64 payload is not UTF-8 text.
    PayloadNotUtf8,
    /// The extension region holds no wrapped data key.
    MissingEdek,
    /// The wrapped data key is not base64.
    EdekBase64,
    /// The wrapped data key is too short for its nonce and tag.
    EdekTooShort,
    /// The wrapped data key failed authentication.
    EdekAuthentication,
    /// The unwrapped data key is not 32 bytes long.
    DekLength,
    /// A version 2 payload is too short for one chunk.
    PayloadTooShort,
    /// A chunk is too short for its nonce and tag.
    ChunkIncomplete,
    /// A chunk failed authentication.
    ChunkAuthentication,
}

/// The message shown for an error.
pub open spec fn error_message(e: DecryptError) -> Seq<char> {
    match e {
        DecryptError::EmptyPassword => "密码不能为空"@,
        DecryptError::KekDerivation => "主密钥 (KEK) 派生失败: PwdTooLong"@,
        DecryptError::UnknownHeader => "未识别的加密标头"@,
        DecryptError::V1NotUtf8 => "V1 文件非有效 UTF-8 文本"@,
        DecryptError::V1MissingSegments => "无效的结构: 缺少扩展区或载荷区"@,
        DecryptError::PayloadBase64 => "Payload Base64 解码失败"@,
        DecryptError::V1TooShort => "密文数据长度异常"@,
        DecryptError::KeyDerivation => "密钥派生失败: PwdTooLong"@,
        DecryptError::V1Authentication => "解密验证失败：密码错误或数据损坏"@,
        DecryptError::Inflate => "数据解压失败 (ZLIB 格式异常)"@,
        DecryptError::NoExtensionEnd => "未找到扩展区结束分隔符"@,
        DecryptError::ExtensionNotUtf8 => "扩展区非有效 UTF-8 编码"@,
        DecryptError::PayloadNotUtf8 => "密文载荷非有效 UTF-8 文本"@,
        DecryptError::MissingEdek => "元数据块缺失 EDEK (ek 字段)"@,
        DecryptError::EdekBase64 => "EDEK Base64 解码失败"@,
        DecryptError::EdekTooShort => "EDEK 载荷长度不足"@,
        DecryptError::EdekAuthentication => "解密 EDEK 失败：密码错误"@,
        DecryptError::DekLength => "DEK 长度非 32 字节"@,
        DecryptError::PayloadTooShort => "密文数据长度小于最小分块开销"@,
        DecryptError::ChunkIncomplete => "分块数据不完整"@,
        DecryptError::ChunkAuthentication => "分块解密失败：密文损坏或验证标签不匹配"@,
    }
}

impl DecryptError {
    /// The message shown to the user.
    pub fn message(&self) -> (r: &'static str)
        ensures
            r@ == error_message(*self),
    {
        match self {
            DecryptError::EmptyPassword => "密码不能为空",
            DecryptError::KekDerivation => "主密钥 (KEK) 派生失败: PwdTooLong",
            DecryptError::UnknownHeader => "未识别的加密标头",
            DecryptError::V1NotUtf8 => "V1 文件非有效 UTF-8 文本",
            DecryptError::V1MissingSegments => "无效的结构: 缺少扩展区或载荷区",
            DecryptError::PayloadBase64 => "Payload Base64 解码失败",
            DecryptError::V1TooShort => "密文数据长度异常",
            DecryptError::KeyDerivation => "密钥派生失败: PwdTooLong",
            DecryptError::V1Authentication => "解密验证失败：密码错误或数据损坏",
            DecryptError::Inflate => "数据解压失败 (ZLIB 格式异常)",
            DecryptError::NoExtensionEnd => "未找到扩展区结束分隔符",
            DecryptError::ExtensionNotUtf8 => "扩展区非有效 UTF-8 编码",
            DecryptError::PayloadNotUtf8 => "密文载荷非有效 UTF-8 文本",
            DecryptError::MissingEdek => "元数据块缺失 EDEK (ek 字段)",
            DecryptError::EdekBase64 => "EDEK Base64 解码失败",
            DecryptError::EdekTooShort => "EDEK 载荷长度不足",
            DecryptError::EdekAuthentication => "解密 EDEK 失败：密码错误",
            DecryptError::DekLength => "DEK 长度非 32 字节",
            DecryptError::PayloadTooShort => "密文数据长度小于最小分块开销",
            DecryptError::ChunkIncomplete => "分块数据不完整",
            DecryptError::ChunkAuthentication => "分块解密失败：密文损坏或验证标签不匹配",
        }
    }
}

/// What the outcome of a decryption stands for.
pub open spec fn outcome_view(r: Result<Vec<u8>, DecryptError>) -> Result<Seq<u8>, DecryptError> {
    match r {
        Ok(v) => Ok(v@),
        Err(e) => Err(e),
    }
}

/// What the outcome of a key derivation or unwrapping stands for.
pub open spec fn key_view(r: Result<[u8; 32], DecryptError>) -> Result<Seq<u8>, DecryptError> {
    match r {
        Ok(k) => Ok(k@),
        Err(e) => Err(e),
    }
}

} // verus!
