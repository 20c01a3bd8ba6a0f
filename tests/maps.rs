use redbpf::maps::{HashMap, MapDef, PerfMap, BPF_MAP_TYPE_HASH, BPF_MAP_TYPE_PERF_EVENT_ARRAY};

#[test]
fn hash_map_definition_uses_key_and_value_sizes() {
    let m: HashMap<u64, u32> = HashMap::with_max_entries(10);
    assert_eq!(
        m.def(),
        MapDef { type_: BPF_MAP_TYPE_HASH, key_size: 8, value_size: 4, max_entries: 10, map_flags: 0 }
    );
    let n: HashMap<[u8; 3], u16> = HashMap::with_max_entries(1);
    assert_eq!(n.def().key_size, 3);
    assert_eq!(n.def().value_size, 2);
}

#[test]
fn perf_map_definition_has_word_sized_slots() {
    let m: PerfMap<[u8; 100]> = PerfMap::with_max_entries(128);
    assert_eq!(
        m.def(),
        MapDef {
            type_: BPF_MAP_TYPE_PERF_EVENT_ARRAY,
            key_size: 4,
            value_size: 4,
            max_entries: 128,
            map_flags: 0
        }
    );
}
