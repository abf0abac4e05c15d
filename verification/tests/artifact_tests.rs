//! The exported artifact: metadata JSON generation and the lossless
//! binary envelope, checked against an ordinary JSON parser.

use fcs_flim::build_metadata_json;
use fcs_flim::decode_final_artifact;
use fcs_flim::encode_final_artifact;

fn meta_bytes(notes: &str) -> Vec<u8> {
    build_metadata_json(
        &vec![(0usize, 1usize), (1, 1)],
        3,
        &vec![0usize, 1],
        100,
        4000,
        &notes.as_bytes().to_vec(),
    )
}

#[test]
fn metadata_json_is_exact() {
    let meta = meta_bytes("run one");
    assert_eq!(
        String::from_utf8(meta).unwrap(),
        "{\"acquisition_time\":4000,\"bin_width\":100,\"correlations\":[[0,1],[1,1]],\
         \"enabled_channels\":[0,1],\"notes\":\"run one\",\"num_acquisitions\":3}"
    );
}

#[test]
fn metadata_json_parses_back() {
    let meta = meta_bytes("notes with \"quotes\" and \\slashes\\ and\nnewlines");
    let v: serde_json::Value = serde_json::from_slice(&meta).unwrap();
    assert_eq!(v.get("acquisition_time").unwrap().as_u64(), Some(4000));
    assert_eq!(v.get("bin_width").unwrap().as_u64(), Some(100));
    assert_eq!(v.get("num_acquisitions").unwrap().as_u64(), Some(3));
    assert_eq!(
        v.get("notes").unwrap().as_str(),
        Some("notes with \"quotes\" and \\slashes\\ and\nnewlines")
    );
    let corr = v.get("correlations").unwrap().as_array().unwrap();
    assert_eq!(corr.len(), 2);
    assert_eq!(corr[0].as_array().unwrap()[0].as_u64(), Some(0));
    assert_eq!(corr[0].as_array().unwrap()[1].as_u64(), Some(1));
    let chans = v.get("enabled_channels").unwrap().as_array().unwrap();
    assert_eq!(chans.len(), 2);
}

#[test]
fn envelope_round_trip_is_lossless() {
    let meta = meta_bytes("round trip");
    let payload = b"{\"lag_index\":[0,1,2],\"g2_correlations\":[[[0,1],[[1.5,-0.25,0.125]]]]}"
        .to_vec();
    let bytes = encode_final_artifact(&meta, &payload);
    assert_eq!(&bytes[0..4], b"FCS1");
    let (meta2, payload2) = decode_final_artifact(&bytes).unwrap();
    assert_eq!(meta2, meta);
    assert_eq!(payload2, payload);
    // The JSON-encoded g2 floats survive the trip bit-exactly.
    let v: serde_json::Value = serde_json::from_slice(&payload2).unwrap();
    let reps = v.get("g2_correlations").unwrap().as_array().unwrap()[0]
        .as_array()
        .unwrap()[1]
        .as_array()
        .unwrap()[0]
        .as_array()
        .unwrap();
    assert_eq!(reps[0].as_f64(), Some(1.5));
    assert_eq!(reps[1].as_f64(), Some(-0.25));
    assert_eq!(reps[2].as_f64(), Some(0.125));
    let lag = v.get("lag_index").unwrap().as_array().unwrap();
    assert_eq!(lag[2].as_i64(), Some(2));
}

#[test]
fn mangled_envelope_is_rejected() {
    let meta = meta_bytes("x");
    let payload = b"{}".to_vec();
    let mut bytes = encode_final_artifact(&meta, &payload);
    bytes[0] = b'X';
    assert!(decode_final_artifact(&bytes).is_none());
    let bytes2 = encode_final_artifact(&meta, &payload);
    assert!(decode_final_artifact(&bytes2[..bytes2.len() - 1].to_vec()).is_none());
}
