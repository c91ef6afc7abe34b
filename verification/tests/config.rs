use bwfs::config::{Config, ConfigError, RawConfig};
use configparser::ini::Ini;

fn sample() -> Config {
    Config {
        name: "bw".to_string(),
        block_width: 800,
        block_height: 800,
        total_blocks: 64,
        total_inodes: 256,
        storage_path: "/tmp/bw".to_string(),
        fingerprint: "BWFS".to_string(),
        distributed_nodes: Vec::new(),
        tcp_port: 9000,
    }
}

fn parse(text: &str) -> Ini {
    let mut ini = Ini::new();
    ini.read(text.to_string()).unwrap();
    ini
}

fn raw(total_blocks: Option<&str>) -> RawConfig {
    RawConfig {
        name: Some("bw".to_string()),
        block_width: None,
        block_height: None,
        total_blocks: total_blocks.map(|s| s.to_string()),
        total_inodes: None,
        storage_path: Some("/data".to_string()),
        fingerprint: None,
        tcp_port: None,
        nodes: Vec::new(),
    }
}

#[test]
fn valid_configuration_passes() {
    assert_eq!(sample().validate(), Ok(()));
    let mut c = sample();
    c.block_width = 1000;
    c.block_height = 1000;
    assert_eq!(c.validate(), Ok(()));
}

#[test]
fn oversized_blocks_are_refused() {
    let mut c = sample();
    c.block_width = 1001;
    assert_eq!(c.validate(), Err(ConfigError::BlockTooLarge));
    let mut c = sample();
    c.block_height = 1001;
    assert_eq!(c.validate(), Err(ConfigError::BlockTooLarge));
}

#[test]
fn zero_blocks_and_zero_inodes_are_refused() {
    let mut c = sample();
    c.total_blocks = 0;
    assert_eq!(c.validate(), Err(ConfigError::NoBlocks));
    let mut c = sample();
    c.total_inodes = 0;
    assert_eq!(c.validate(), Err(ConfigError::NoInodes));
}

#[test]
fn the_first_broken_rule_is_reported() {
    let mut c = sample();
    c.block_width = 2000;
    c.total_blocks = 0;
    c.total_inodes = 0;
    assert_eq!(c.validate(), Err(ConfigError::BlockTooLarge));
    c.block_width = 10;
    assert_eq!(c.validate(), Err(ConfigError::NoBlocks));
}

#[test]
fn block_geometry_needs_a_byte_of_room() {
    assert!(sample().has_block_geometry());
    let mut c = sample();
    c.block_width = 2;
    c.block_height = 3;
    assert!(!c.has_block_geometry());
    c.block_height = 4;
    assert!(c.has_block_geometry());
    c.block_width = 1001;
    assert!(!c.has_block_geometry());
}

#[test]
fn full_file_is_read() {
    let ini = parse(
        "[filesystem]\n\
         name = demo\n\
         block_width = 800\n\
         block_height = 600\n\
         total_blocks = 64\n\
         total_inodes = 256\n\
         storage_path = /var/bwfs\n\
         fingerprint = MYFS\n\
         tcp_port = 9100\n\
         [network]\n\
         node1 = 10.0.0.1:9000\n\
         node3 = 10.0.0.3:9000\n",
    );
    let c = Config::from_ini(&ini).unwrap();
    assert_eq!(c.name, "demo");
    assert_eq!(c.block_width, 800);
    assert_eq!(c.block_height, 600);
    assert_eq!(c.total_blocks, 64);
    assert_eq!(c.total_inodes, 256);
    assert_eq!(c.storage_path, "/var/bwfs");
    assert_eq!(c.fingerprint, "MYFS");
    assert_eq!(c.tcp_port, 9100);
    assert_eq!(c.distributed_nodes, vec!["10.0.0.1:9000".to_string(), "10.0.0.3:9000".to_string()]);
}

#[test]
fn defaults_fill_the_optional_keys() {
    let ini = parse("[filesystem]\nname = demo\ntotal_blocks = 8\nstorage_path = /d\n");
    let c = Config::from_ini(&ini).unwrap();
    assert_eq!(c.block_width, 1000);
    assert_eq!(c.block_height, 1000);
    assert_eq!(c.total_inodes, 1024);
    assert_eq!(c.fingerprint, "BWFS");
    assert_eq!(c.tcp_port, 9000);
    assert!(c.distributed_nodes.is_empty());
}

#[test]
fn values_come_trimmed_from_the_file() {
    let ini = parse("[filesystem]\nname =   demo  \ntotal_blocks = 8\nstorage_path = /d\nfingerprint =   BWFS   \n");
    let c = Config::from_ini(&ini).unwrap();
    assert_eq!(c.name, "demo");
    assert_eq!(c.fingerprint, "BWFS");
}

#[test]
fn missing_required_keys_are_reported_in_order() {
    let ini = parse("[filesystem]\nblock_width = 10\n");
    assert_eq!(Config::from_ini(&ini).err(), Some(ConfigError::MissingName));
    let ini = parse("[filesystem]\nname = x\n");
    assert_eq!(Config::from_ini(&ini).err(), Some(ConfigError::MissingTotalBlocks));
    let ini = parse("[filesystem]\nname = x\ntotal_blocks = 4\n");
    assert_eq!(Config::from_ini(&ini).err(), Some(ConfigError::MissingStoragePath));
    let ini = parse("");
    assert_eq!(Config::from_ini(&ini).err(), Some(ConfigError::MissingName));
}

#[test]
fn unreadable_numbers_count_as_missing() {
    let ini = parse(
        "[filesystem]\nname = x\ntotal_blocks = many\nstorage_path = /d\n",
    );
    assert_eq!(Config::from_ini(&ini).err(), Some(ConfigError::MissingTotalBlocks));
    let ini = parse(
        "[filesystem]\nname = x\ntotal_blocks = 4\nstorage_path = /d\nblock_width = wide\ntcp_port = 70000\ntotal_inodes = -1\n",
    );
    let c = Config::from_ini(&ini).unwrap();
    assert_eq!(c.block_width, 1000);
    assert_eq!(c.tcp_port, 9000);
    assert_eq!(c.total_inodes, 1024);
}

#[test]
fn numbers_are_plain_decimals_with_an_optional_plus() {
    assert_eq!(Config::from_raw(raw(Some("64"))).unwrap().total_blocks, 64);
    assert_eq!(Config::from_raw(raw(Some("+64"))).unwrap().total_blocks, 64);
    assert_eq!(Config::from_raw(raw(Some("0064"))).unwrap().total_blocks, 64);
    assert_eq!(Config::from_raw(raw(Some("4294967295"))).unwrap().total_blocks, u32::MAX);
    for bad in ["", "+", "-1", " 64", "64 ", "6_4", "0x40", "4294967296", "٣"] {
        assert_eq!(
            Config::from_raw(raw(Some(bad))).err(),
            Some(ConfigError::MissingTotalBlocks),
            "{:?}",
            bad
        );
    }
    assert_eq!(Config::from_raw(raw(None)).err(), Some(ConfigError::MissingTotalBlocks));
}

#[test]
fn raw_values_keep_their_order_of_precedence() {
    let mut r = raw(Some("x"));
    r.name = None;
    r.storage_path = None;
    assert_eq!(Config::from_raw(r).err(), Some(ConfigError::MissingName));
    let mut r = raw(Some("x"));
    r.storage_path = None;
    assert_eq!(Config::from_raw(r).err(), Some(ConfigError::MissingTotalBlocks));
    let mut r = raw(Some("1"));
    r.nodes = vec!["a".to_string(), "b".to_string()];
    r.tcp_port = Some("65535".to_string());
    let c = Config::from_raw(r).unwrap();
    assert_eq!(c.distributed_nodes, vec!["a".to_string(), "b".to_string()]);
    assert_eq!(c.tcp_port, 65535);
}

#[test]
fn node_keys_run_from_one_to_nine() {
    let ini = parse(
        "[network]\nnode0 = zero\nnode9 = nine\nnode2 = two\nnode10 = ten\n[filesystem]\nname = x\ntotal_blocks = 4\nstorage_path = /d\n",
    );
    let c = Config::from_ini(&ini).unwrap();
    assert_eq!(c.distributed_nodes, vec!["two".to_string(), "nine".to_string()]);
}

#[test]
fn numbers_are_read_as_the_standard_library_reads_them() {
    let samples = [
        "0", "1", "9", "10", "007", "+0", "+7", "++7", "+-7", "-0", "7+", "4294967295",
        "4294967296", "42949672950", "99999999999999999999999", "00000000000000000004294967295",
        "1 ", " 1", "1\n", "１", "1e3", "1.0", "", "+", "-", "a", "0a", "٣", "é", "12é",
    ];
    for text in samples {
        let mut r = raw(Some(text));
        r.tcp_port = Some(text.to_string());
        r.block_width = Some(text.to_string());
        let got = Config::from_raw(r);
        match text.parse::<u32>() {
            Ok(v) => {
                let c = got.unwrap();
                assert_eq!(c.total_blocks, v, "{:?}", text);
                assert_eq!(c.block_width, v, "{:?}", text);
                assert_eq!(c.tcp_port, text.parse::<u16>().unwrap_or(9000), "{:?}", text);
            }
            Err(_) => assert_eq!(got.err(), Some(ConfigError::MissingTotalBlocks), "{:?}", text),
        }
    }
}
