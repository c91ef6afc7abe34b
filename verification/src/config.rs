//! Configuration of a filesystem.

use configparser::ini::Ini;
use vstd::prelude::*;
use vstd::utf8::is_ascii_chars;

verus! {

/// A parsed INI document of the `configparser` crate.
#[verifier::external_type_specification]
#[verifier::external_body]
pub struct ExIni(Ini);

/// What `Ini::get` finds for a key of a section: the stored value, if the
/// key is there and has one.
pub uninterp spec fn ini_lookup(ini: Ini, section: Seq<char>, key: Seq<char>) -> Option<Seq<char>>;

/// Calls `Ini::get`: the value that the document holds for `key` in
/// `section`, as a fresh string.
#[verifier::external_body]
fn ini_get(ini: &Ini, section: &str, key: &str) -> (r: Option<String>)
    ensures
        match r {
            Some(value) => ini_lookup(*ini, section@, key@) == Some(value@),
            None => ini_lookup(*ini, section@, key@) is None,
        },
{
    ini.get(section, key)
}

/// Whether `c` is one of the digits `0` to `9`.
pub open spec fn is_digit(c: char) -> bool {
    '0' <= c <= '9'
}

/// The number that a run of decimal digits stands for.
pub open spec fn digits_value(digits: Seq<char>) -> nat
    decreases digits.len(),
{
    if digits.len() == 0 {
        0
    } else {
        digits_value(digits.drop_last()) * 10 + (digits.last() as u32 - '0' as u32) as nat
    }
}

/// `text` without the `+` that may stand at its start.
pub open spec fn unsigned_part(text: Seq<char>) -> Seq<char> {
    if text.len() > 0 && text[0] == '+' {
        text.subrange(1, text.len() as int)
    } else {
        text
    }
}

/// The number that `text` stands for as an unsigned decimal of at most
/// `max`: an optional `+`, then one or more digits and nothing else.
pub open spec fn parsed_unsigned(text: Seq<char>, max: nat) -> Option<nat> {
    let digits = unsigned_part(text);
    if digits.len() > 0 && (forall|i: int| 0 <= i < digits.len() ==> is_digit(#[trigger] digits[i]))
        && digits_value(digits) <= max {
        Some(digits_value(digits))
    } else {
        None
    }
}

/// `text` read as a `u32`.
pub open spec fn parsed_u32(text: Seq<char>) -> Option<u32> {
    match parsed_unsigned(text, u32::MAX as nat) {
        Some(v) => Some(v as u32),
        None => None,
    }
}

/// `text` read as a `u16`.
pub open spec fn parsed_u16(text: Seq<char>) -> Option<u16> {
    match parsed_unsigned(text, u16::MAX as nat) {
        Some(v) => Some(v as u16),
        None => None,
    }
}

/// A run of digits is worth at least as much as each of its prefixes.
proof fn lemma_digits_grow(digits: Seq<char>, n: int)
    requires
        0 <= n <= digits.len(),
        forall|i: int| 0 <= i < digits.len() ==> is_digit(#[trigger] digits[i]),
    ensures
        digits_value(digits.subrange(0, n)) <= digits_value(digits),
    decreases digits.len() - n,
{
    if n == digits.len() {
        assert(digits.subrange(0, n) =~= digits);
    } else {
        let front = digits.drop_last();
        if n == front.len() {
            assert(digits.subrange(0, n) =~= front);
        } else {
            assert forall|i: int| 0 <= i < front.len() implies is_digit(#[trigger] front[i]) by {
                assert(front[i] == digits[i]);
            }
            lemma_digits_grow(front, n);
            assert(front.subrange(0, n) =~= digits.subrange(0, n));
        }
        assert(is_digit(digits.last()));
    }
}

/// Reads `text` as an unsigned decimal of at most `max`.
fn parse_unsigned(text: &str, max: u64) -> (r: Option<u64>)
    requires
        max <= u32::MAX,
    ensures
        r == match parsed_unsigned(text@, max as nat) {
            Some(v) => Some(v as u64),
            None => None,
        },
{
    broadcast use vstd::utf8::is_ascii_chars_encode_utf8;

    let ghost plus = text@.len() > 0 && text@[0] == '+';
    let ghost digits = unsigned_part(text@);
    if !text.is_ascii() {
        proof {
            let k = choose|k: int| 0 <= k < text@.len() && !('\0' <= #[trigger] text@[k] <= '\u{7f}');
            if plus {
                assert(k > 0);
                assert(digits[k - 1] == text@[k]);
                assert(!is_digit(digits[k - 1]));
            } else {
                assert(digits[k] == text@[k]);
                assert(!is_digit(digits[k]));
            }
        }
        return None;
    }
    let bytes = text.as_bytes();
    let n: usize = bytes.len();
    assert(forall|i: int| 0 <= i < n ==> #[trigger] bytes@[i] == text@[i] as u8);
    let first: usize = if n > 0 && bytes[0] == 43 { 1 } else { 0 };
    assert(plus == (first == 1)) by {
        if n > 0 {
            assert(bytes@[0] == text@[0] as u8);
            assert('\0' <= text@[0] <= '\u{7f}');
        }
    }
    if first >= n {
        return None;
    }
    let mut value: u64 = 0;
    let mut i: usize = first;
    while i < n
        invariant
            first <= i <= n,
            n == text@.len(),
            n == bytes@.len(),
            max <= u32::MAX,
            value <= max,
            is_ascii_chars(text@),
            forall|k: int| 0 <= k < n ==> #[trigger] bytes@[k] == text@[k] as u8,
            digits == unsigned_part(text@),
            digits.len() == n - first,
            forall|k: int| 0 <= k < digits.len() ==> #[trigger] digits[k] == text@[first + k],
            forall|k: int| 0 <= k < i - first ==> is_digit(#[trigger] digits[k]),
            value == digits_value(digits.subrange(0, i - first)),
        decreases n - i,
    {
        let b: u8 = bytes[i];
        let ghost c = text@[i as int];
        assert(c == digits[i - first]);
        assert('\0' <= c <= '\u{7f}');
        assert(is_digit(c) == (48 <= b <= 57));
        if b < 48 || b > 57 {
            return None;
        }
        proof {
            let upto = digits.subrange(0, i + 1 - first);
            assert(upto.drop_last() =~= digits.subrange(0, i - first));
            assert(upto.last() == c);
            assert((c as u32 - '0' as u32) == b - 48);
        }
        value = value * 10 + (b - 48) as u64;
        i += 1;
        if value > max {
            proof {
                if forall|k: int| 0 <= k < digits.len() ==> is_digit(#[trigger] digits[k]) {
                    lemma_digits_grow(digits, i - first);
                }
            }
            return None;
        }
    }
    assert(digits.subrange(0, i - first) =~= digits);
    Some(value)
}

/// Reads `text` as a `u32`.
fn parse_u32(text: &str) -> (r: Option<u32>)
    ensures
        r == parsed_u32(text@),
{
    match parse_unsigned(text, 0xFFFF_FFFF) {
        Some(v) => Some(v as u32),
        None => None,
    }
}

/// Reads `text` as a `u16`.
fn parse_u16(text: &str) -> (r: Option<u16>)
    ensures
        r == parsed_u16(text@),
{
    match parse_unsigned(text, 0xFFFF) {
        Some(v) => Some(v as u16),
        None => None,
    }
}

/// Why a configuration is refused.
#[derive(Debug, Clone, Copy, PartialEq, Eq, Structural)]
pub enum ConfigError {
    /// The `name` key is missing.
    MissingName,
    /// The `total_blocks` key is missing or is not a number.
    MissingTotalBlocks,
    /// The `storage_path` key is missing.
    MissingStoragePath,
    /// A block side is larger than 1000 pixels.
    BlockTooLarge,
    /// The number of blocks is zero.
    NoBlocks,
    /// The number of inodes is zero.
    NoInodes,
}

/// Configuration for BWFS filesystem
#[derive(Debug, Clone)]
pub struct Config {
    /// Filesystem name
    pub name: String,
    /// Block width in pixels (at most 1000)
    pub block_width: u32,
    /// Block height in pixels (at most 1000)
    pub block_height: u32,
    /// Total number of blocks
    pub total_blocks: u32,
    /// Number of inodes
    pub total_inodes: u32,
    /// Path to store filesystem images
    pub storage_path: String,
    /// Fingerprint for filesystem identification
    pub fingerprint: String,
    /// Distributed nodes (optional)
    pub distributed_nodes: Vec<String>,
    /// TCP port for network communication
    pub tcp_port: u16,
}

/// A configuration as it appears in contracts.
pub struct ConfigView {
    pub name: Seq<char>,
    pub block_width: u32,
    pub block_height: u32,
    pub total_blocks: u32,
    pub total_inodes: u32,
    pub storage_path: Seq<char>,
    pub fingerprint: Seq<char>,
    pub distributed_nodes: Seq<Seq<char>>,
    pub tcp_port: u16,
}

impl View for Config {
    type V = ConfigView;

    open spec fn view(&self) -> ConfigView {
        ConfigView {
            name: self.name@,
            block_width: self.block_width,
            block_height: self.block_height,
            total_blocks: self.total_blocks,
            total_inodes: self.total_inodes,
            storage_path: self.storage_path@,
            fingerprint: self.fingerprint@,
            distributed_nodes: self.distributed_nodes@.map_values(|n: String| n@),
            tcp_port: self.tcp_port,
        }
    }
}

/// The values of a configuration file as text, before any is read as a
/// number, in contracts.
pub struct RawConfigView {
    pub name: Option<Seq<char>>,
    pub block_width: Option<Seq<char>>,
    pub block_height: Option<Seq<char>>,
    pub total_blocks: Option<Seq<char>>,
    pub total_inodes: Option<Seq<char>>,
    pub storage_path: Option<Seq<char>>,
    pub fingerprint: Option<Seq<char>>,
    pub tcp_port: Option<Seq<char>>,
    pub nodes: Seq<Seq<char>>,
}

/// The values of a configuration file as text, before any is read as a
/// number: the keys of section `filesystem`, and the nodes of section
/// `network` that are there, in the order of their numbers.
#[derive(Debug)]
pub struct RawConfig {
    pub name: Option<String>,
    pub block_width: Option<String>,
    pub block_height: Option<String>,
    pub total_blocks: Option<String>,
    pub total_inodes: Option<String>,
    pub storage_path: Option<String>,
    pub fingerprint: Option<String>,
    pub tcp_port: Option<String>,
    pub nodes: Vec<String>,
}

/// The text of an optional string.
pub open spec fn text_of(value: Option<String>) -> Option<Seq<char>> {
    match value {
        Some(s) => Some(s@),
        None => None,
    }
}

impl View for RawConfig {
    type V = RawConfigView;

    open spec fn view(&self) -> RawConfigView {
        RawConfigView {
            name: text_of(self.name),
            block_width: text_of(self.block_width),
            block_height: text_of(self.block_height),
            total_blocks: text_of(self.total_blocks),
            total_inodes: text_of(self.total_inodes),
            storage_path: text_of(self.storage_path),
            fingerprint: text_of(self.fingerprint),
            tcp_port: text_of(self.tcp_port),
            nodes: self.nodes@.map_values(|n: String| n@),
        }
    }
}

/// A number key: the value read as a `u32`, or `default` where the key is
/// missing or is no number.
pub open spec fn u32_or(value: Option<Seq<char>>, default: u32) -> u32 {
    match value {
        Some(text) => match parsed_u32(text) {
            Some(v) => v,
            None => default,
        },
        None => default,
    }
}

/// The keys `node1` to `node9`.
pub open spec fn node_keys() -> Seq<Seq<char>> {
    seq![
        "node1"@,
        "node2"@,
        "node3"@,
        "node4"@,
        "node5"@,
        "node6"@,
        "node7"@,
        "node8"@,
        "node9"@,
    ]
}

/// The values of the first `n` node keys that the document holds, in
/// order.
pub open spec fn nodes_found(ini: Ini, n: int) -> Seq<Seq<char>>
    decreases n,
{
    if n <= 0 {
        Seq::empty()
    } else {
        let before = nodes_found(ini, n - 1);
        match ini_lookup(ini, "network"@, node_keys()[n - 1]) {
            Some(node) => before.push(node),
            None => before,
        }
    }
}

/// What a document holds for the keys of a configuration.
pub open spec fn raw_of(ini: Ini) -> RawConfigView {
    RawConfigView {
        name: ini_lookup(ini, "filesystem"@, "name"@),
        block_width: ini_lookup(ini, "filesystem"@, "block_width"@),
        block_height: ini_lookup(ini, "filesystem"@, "block_height"@),
        total_blocks: ini_lookup(ini, "filesystem"@, "total_blocks"@),
        total_inodes: ini_lookup(ini, "filesystem"@, "total_inodes"@),
        storage_path: ini_lookup(ini, "filesystem"@, "storage_path"@),
        fingerprint: ini_lookup(ini, "filesystem"@, "fingerprint"@),
        tcp_port: ini_lookup(ini, "filesystem"@, "tcp_port"@),
        nodes: nodes_found(ini, 9),
    }
}

/// The configuration that raw values give: `name`, `total_blocks` and
/// `storage_path` are required, every other key has a default.
pub open spec fn config_of(raw: RawConfigView) -> Result<ConfigView, ConfigError> {
    if raw.name is None {
        Err(ConfigError::MissingName)
    } else if raw.total_blocks is None || parsed_u32(raw.total_blocks->Some_0) is None {
        Err(ConfigError::MissingTotalBlocks)
    } else if raw.storage_path is None {
        Err(ConfigError::MissingStoragePath)
    } else {
        Ok(
            ConfigView {
                name: raw.name->Some_0,
                block_width: u32_or(raw.block_width, 1000),
                block_height: u32_or(raw.block_height, 1000),
                total_blocks: parsed_u32(raw.total_blocks->Some_0)->Some_0,
                total_inodes: u32_or(raw.total_inodes, 1024),
                storage_path: raw.storage_path->Some_0,
                fingerprint: match raw.fingerprint {
                    Some(f) => f,
                    None => "BWFS"@,
                },
                distributed_nodes: raw.nodes,
                tcp_port: match raw.tcp_port {
                    Some(text) => match parsed_u16(text) {
                        Some(v) => v,
                        None => 9000,
                    },
                    None => 9000,
                },
            },
        )
    }
}

/// The key of node `i`.
fn node_key(i: usize) -> (r: &'static str)
    requires
        1 <= i <= 9,
    ensures
        r@ == node_keys()[i - 1],
{
    if i == 1 {
        "node1"
    } else if i == 2 {
        "node2"
    } else if i == 3 {
        "node3"
    } else if i == 4 {
        "node4"
    } else if i == 5 {
        "node5"
    } else if i == 6 {
        "node6"
    } else if i == 7 {
        "node7"
    } else if i == 8 {
        "node8"
    } else {
        "node9"
    }
}

/// Reads a number key with a default.
fn number_or(value: &Option<String>, default: u32) -> (r: u32)
    ensures
        r == u32_or(text_of(*value), default),
{
    match value {
        Some(text) => match parse_u32(text.as_str()) {
            Some(v) => v,
            None => default,
        },
        None => default,
    }
}

impl Config {
    /// Reads the configuration out of a parsed INI document.
    pub fn from_ini(ini: &Ini) -> (r: Result<Config, ConfigError>)
        ensures
            match r {
                Ok(c) => config_of(raw_of(*ini)) == Ok::<ConfigView, ConfigError>(c@),
                Err(e) => config_of(raw_of(*ini)) == Err::<ConfigView, ConfigError>(e),
            },
    {
        let mut nodes: Vec<String> = Vec::new();
        let mut i: usize = 1;
        while i < 10
            invariant
                1 <= i <= 10,
                nodes@.map_values(|n: String| n@) == nodes_found(*ini, i - 1),
            decreases 10 - i,
        {
            let ghost before = nodes@;
            match ini_get(ini, "network", node_key(i)) {
                Some(node) => {
                    nodes.push(node);
                    assert(nodes@.map_values(|n: String| n@) =~= before.map_values(
                        |n: String| n@,
                    ).push(node@));
                },
                None => {},
            }
            i += 1;
        }
        let raw = RawConfig {
            name: ini_get(ini, "filesystem", "name"),
            block_width: ini_get(ini, "filesystem", "block_width"),
            block_height: ini_get(ini, "filesystem", "block_height"),
            total_blocks: ini_get(ini, "filesystem", "total_blocks"),
            total_inodes: ini_get(ini, "filesystem", "total_inodes"),
            storage_path: ini_get(ini, "filesystem", "storage_path"),
            fingerprint: ini_get(ini, "filesystem", "fingerprint"),
            tcp_port: ini_get(ini, "filesystem", "tcp_port"),
            nodes,
        };
        assert(raw@ == raw_of(*ini));
        Config::from_raw(raw)
    }

    /// Builds the configuration from the raw values of a file. `name`,
    /// `total_blocks` and `storage_path` are required, in this order; a
    /// number that cannot be read counts as missing.
    pub fn from_raw(raw: RawConfig) -> (r: Result<Config, ConfigError>)
        ensures
            match r {
                Ok(c) => config_of(raw@) == Ok::<ConfigView, ConfigError>(c@),
                Err(e) => config_of(raw@) == Err::<ConfigView, ConfigError>(e),
            },
    {
        let block_width = number_or(&raw.block_width, 1000);
        let block_height = number_or(&raw.block_height, 1000);
        let total_inodes = number_or(&raw.total_inodes, 1024);
        let tcp_port: u16 = match &raw.tcp_port {
            Some(text) => match parse_u16(text.as_str()) {
                Some(v) => v,
                None => 9000,
            },
            None => 9000,
        };
        let total_blocks = match &raw.total_blocks {
            Some(text) => parse_u32(text.as_str()),
            None => None,
        };
        let name = match raw.name {
            Some(name) => name,
            None => {
                return Err(ConfigError::MissingName);
            },
        };
        let total_blocks = match total_blocks {
            Some(v) => v,
            None => {
                return Err(ConfigError::MissingTotalBlocks);
            },
        };
        let storage_path = match raw.storage_path {
            Some(path) => path,
            None => {
                return Err(ConfigError::MissingStoragePath);
            },
        };
        let fingerprint = match raw.fingerprint {
            Some(f) => f,
            None => "BWFS".to_owned(),
        };
        Ok(
            Config {
                name,
                block_width,
                block_height,
                total_blocks,
                total_inodes,
                storage_path,
                fingerprint,
                distributed_nodes: raw.nodes,
                tcp_port,
            },
        )
    }

    /// The first rule that the configuration breaks, if it breaks one.
    pub open spec fn fault(&self) -> Option<ConfigError> {
        if self.block_width > 1000 || self.block_height > 1000 {
            Some(ConfigError::BlockTooLarge)
        } else if self.total_blocks == 0 {
            Some(ConfigError::NoBlocks)
        } else if self.total_inodes == 0 {
            Some(ConfigError::NoInodes)
        } else {
            None
        }
    }

    /// Whether blocks of this size can hold data: no side is longer than
    /// 1000 pixels and a block holds at least one byte.
    pub open spec fn block_geometry_ok(&self) -> bool {
        &&& self.block_width <= 1000
        &&& self.block_height <= 1000
        &&& self.block_width * self.block_height >= 8
    }

    /// Whether blocks of this size can hold data.
    pub fn has_block_geometry(&self) -> (r: bool)
        ensures
            r == self.block_geometry_ok(),
    {
        if self.block_width > 1000 || self.block_height > 1000 {
            return false;
        }
        assert(self.block_width * self.block_height <= 1000 * 1000) by (nonlinear_arith)
            requires
                self.block_width <= 1000,
                self.block_height <= 1000,
        ;
        self.block_width * self.block_height >= 8
    }

    /// Validate configuration values
    pub fn validate(&self) -> (r: Result<(), ConfigError>)
        ensures
            r == match self.fault() {
                Some(e) => Err::<(), ConfigError>(e),
                None => Ok::<(), ConfigError>(()),
            },
    {
        if self.block_width > 1000 || self.block_height > 1000 {
            return Err(ConfigError::BlockTooLarge);
        }
        if self.total_blocks == 0 {
            return Err(ConfigError::NoBlocks);
        }
        if self.total_inodes == 0 {
            return Err(ConfigError::NoInodes);
        }
        Ok(())
    }
}

} // verus!
