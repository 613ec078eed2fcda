use brumm_cpu::optimizer::{collect_blobs, jump_targets_in_range, CodeBlob};
use brumm_cpu::schematic::{bytes_to_barrelcode, schematic_placements, BlockPlacement};

#[test]
fn barrels_of_one_instruction() {
    let (b1, b2) = bytes_to_barrelcode(&vec![[1, 2, 3, 4]]);
    assert_eq!(b1.len(), 64);
    assert_eq!(b2.len(), 64);
    assert_eq!(b1[0], [1, 0, 0, 0, 0, 1, 0, 0]);
    assert_eq!(b2[0], [1, 1, 0, 0, 0, 0, 1, 0]);
    for r in 1..64 {
        assert_eq!(b1[r], [0; 8]);
        assert_eq!(b2[r], [0; 8]);
    }
}

#[test]
fn barrels_weight_instructions_by_position() {
    let mut code = vec![[0u8; 4]; 17];
    code[0] = [1, 0, 0, 0];
    code[16] = [15, 0, 0, 0];
    let (b1, _) = bytes_to_barrelcode(&code);
    assert_eq!(b1[0], [3, 2, 2, 2, 0, 0, 0, 0]);
    let mut code = vec![[0u8; 4]; 256];
    code[64 + 48 + 5] = [8, 0, 0, 0];
    let (b1, _) = bytes_to_barrelcode(&code);
    assert_eq!(b1[16 + 5], [0, 0, 0, 8, 0, 0, 0, 0]);
}

#[test]
fn barrels_ignore_high_nibbles_and_extra_code() {
    let mut code = vec![[0xf0u8, 0xf0, 0xf0, 0xf0]; 300];
    code[299] = [0xff; 4];
    let (b1, b2) = bytes_to_barrelcode(&code);
    assert!(b1.iter().all(|r| *r == [0; 8]));
    assert!(b2.iter().all(|r| *r == [0; 8]));
}

#[test]
fn law_barrels_keep_low_nibbles() {
    let code: Vec<[u8; 4]> = (0..200u32)
        .map(|k| [(k % 16) as u8, ((k * 7) % 16) as u8, ((k * 3) % 16) as u8, ((k * 5 + 1) % 16) as u8])
        .collect();
    let (b1, b2) = bytes_to_barrelcode(&code);
    for k in 0..256usize {
        for m in 0..4usize {
            let mut v = 0u8;
            for s in 0..4usize {
                let row = 16 * (k / 64) + k % 16;
                let b = 4 * (m % 2) + s;
                let barrel = if m / 2 == 0 { b1[row][b] } else { b2[row][b] };
                v |= ((barrel >> ((k % 64) / 16)) & 1) << s;
            }
            let want = if k < code.len() { code[k][m] & 0xf } else { 0 };
            assert_eq!(v, want);
        }
    }
}

#[test]
fn schematic_layout() {
    let (mut b1, mut b2) = (vec![[0u8; 8]; 64], vec![[0u8; 8]; 64]);
    b1[0][0] = 3;
    b2[0][0] = 15;
    b1[17][2] = 7;
    b2[63][7] = 16;
    let blocks = schematic_placements(&(b1, b2));
    assert_eq!(blocks.len(), 1024);
    assert_eq!(blocks[0], BlockPlacement { x: 0, y: 0, z: 2, barrel: Some(3) });
    assert_eq!(blocks[1], BlockPlacement { x: 74, y: 0, z: 2, barrel: Some(15) });
    assert_eq!(blocks[2], BlockPlacement { x: 0, y: 2, z: 2, barrel: None });
    // column 1, row 1, barrel 2
    let q = 2 * (128 * 1 + 8 * 1 + 2);
    assert_eq!(blocks[q], BlockPlacement { x: 4, y: 4, z: 4, barrel: Some(7) });
    // a value above 15 is not a signal strength: stone
    assert_eq!(blocks[1023], BlockPlacement { x: 86, y: 14, z: 32, barrel: None });
}

#[test]
fn blobs_label_jump_targets() {
    let code: Vec<[u8; 4]> = vec![[13, 8, 2, 0], [0, 1, 2, 3], [15, 0, 0, 0], [12, 1, 0, 0]];
    assert!(jump_targets_in_range(&code));
    let blobs = collect_blobs(&code);
    assert_eq!(blobs.len(), 4);
    let labels: Vec<Option<u8>> = blobs.iter().map(|b| b.label).collect();
    assert_eq!(labels, vec![Some(0), None, Some(2), None]);
    assert_eq!(blobs[1].bytes, [0, 1, 2, 3]);
}

#[test]
fn jump_targets_out_of_range() {
    assert!(!jump_targets_in_range(&vec![[13, 8, 5, 0]]));
    assert!(!jump_targets_in_range(&vec![[12, 0, 255, 15]]));
    assert!(jump_targets_in_range(&vec![[14, 0, 255, 15]]));
}

#[test]
fn blob_from_and_label() {
    let mut blob = CodeBlob::from(&[1, 2, 3, 4]);
    assert_eq!(blob.label, None);
    blob.set_label(9);
    assert_eq!(blob.label, Some(9));
    assert_eq!(blob.bytes, [1, 2, 3, 4]);
}
