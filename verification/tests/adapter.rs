use bufreader::BufReader;
use bufreader::ByteSource;
use bufreader::FaultySource;
use bufreader::MemSource;

#[test]
fn scenario_small_reads_then_buffered() {
    let ms = MemSource::new(vec![1u8, 2, 3, 4, 5, 6]);
    let mut br = BufReader::with_capacity(4, ms);

    let mut d = vec![0u8; 2];
    assert_eq!(br.read(&mut d), Ok(2));
    assert_eq!(d, vec![1u8, 2]);
    assert_eq!(br.buffer(), &[3u8, 4][..]);

    let mut d2 = vec![0u8; 2];
    assert_eq!(br.read(&mut d2), Ok(2));
    assert_eq!(d2, vec![3u8, 4]);
    assert_eq!(br.buffer(), &[][..]);

    let mut d3 = vec![0u8; 2];
    assert_eq!(br.read(&mut d3), Ok(2));
    assert_eq!(d3, vec![5u8, 6]);
}

#[test]
fn scenario_bypass_large_request() {
    let ms = MemSource::new(vec![1u8, 2, 3, 4, 5, 6]);
    let mut br = BufReader::with_capacity(4, ms);
    let mut d = vec![0u8; 10];
    assert_eq!(br.read(&mut d), Ok(6));
    assert_eq!(br.buffer(), &[][..]);

    let mut ms_direct = MemSource::new(vec![1u8, 2, 3, 4, 5, 6]);
    let mut d_direct = vec![0u8; 10];
    assert_eq!(ms_direct.read(&mut d_direct), Ok(6));
    assert_eq!(d, d_direct);
    assert_eq!(d, vec![1u8, 2, 3, 4, 5, 6, 0, 0, 0, 0]);
}

#[test]
fn scenario_end_of_input() {
    let ms = MemSource::new(vec![]);
    let mut br = BufReader::with_capacity(4, ms);

    let mut d = vec![0u8; 3];
    assert_eq!(br.read(&mut d), Ok(0));
    assert_eq!(d, vec![0u8, 0, 0]);

    let mut big = vec![0u8; 8];
    assert_eq!(br.read(&mut big), Ok(0));

    let mut empty: Vec<u8> = Vec::new();
    assert_eq!(br.read(&mut empty), Ok(0));
}

#[test]
fn scenario_consume_clamp() {
    let ms = MemSource::new(vec![1u8, 2, 3]);
    let mut br = BufReader::with_capacity(4, ms);
    assert_eq!(br.fill_buf(), Ok(3));
    assert_eq!(br.buffer(), &[1u8, 2, 3][..]);

    br.consume(1000);
    assert_eq!(br.buffer(), &[][..]);

    assert_eq!(br.fill_buf(), Ok(0));
}

#[test]
fn consume_partial_then_all() {
    let ms = MemSource::new(vec![1u8, 2, 3]);
    let mut br = BufReader::with_capacity(4, ms);
    assert_eq!(br.fill_buf(), Ok(3));
    br.consume(1);
    assert_eq!(br.buffer(), &[2u8, 3][..]);
    br.consume(0);
    assert_eq!(br.buffer(), &[2u8, 3][..]);
    br.consume(2);
    assert_eq!(br.buffer(), &[][..]);
}

#[test]
fn scenario_release_drops_buffered() {
    let ms = MemSource::new(vec![1u8, 2, 3, 4, 5, 6]);
    let mut br = BufReader::with_capacity(4, ms);

    let mut d = vec![0u8; 2];
    assert_eq!(br.read(&mut d), Ok(2));
    assert_eq!(br.buffer(), &[3u8, 4][..]);

    let mut back = br.into_inner();
    assert_eq!(back.remaining_len(), 2);
    let mut d2 = vec![0u8; 4];
    assert_eq!(back.read(&mut d2), Ok(2));
    assert_eq!(d2, vec![5u8, 6, 0, 0]);
}

#[test]
fn error_propagates_unchanged() {
    let fs = FaultySource::new(7);
    let mut br = BufReader::with_capacity(4, fs);

    let mut d = vec![0u8; 2];
    assert_eq!(br.read(&mut d), Err(7));
    assert_eq!(d, vec![0u8, 0]);
    assert_eq!(br.buffer(), &[][..]);

    assert_eq!(br.fill_buf(), Err(7));

    let mut big = vec![0u8; 8];
    assert_eq!(br.read(&mut big), Err(7));
    assert_eq!(big, vec![0u8; 8]);

    let mut regions = vec![vec![0u8; 2]];
    assert_eq!(br.read_vectored(&mut regions), Err(7));
    assert_eq!(regions, vec![vec![0u8, 0]]);
}

#[test]
fn vectored_bypass_and_buffered() {
    let ms = MemSource::new(vec![1u8, 2, 3, 4, 5, 6]);
    let mut br = BufReader::with_capacity(4, ms);

    let mut regions = vec![vec![0u8; 2], vec![0u8; 3]];
    assert_eq!(br.read_vectored(&mut regions), Ok(5));
    assert_eq!(regions, vec![vec![1u8, 2], vec![3u8, 4, 5]]);
    assert_eq!(br.buffer(), &[][..]);

    let mut more = vec![vec![0u8; 1], vec![0u8; 1]];
    assert_eq!(br.read_vectored(&mut more), Ok(1));
    assert_eq!(more, vec![vec![6u8], vec![0u8]]);
}

#[test]
fn vectored_no_regions_still_fills() {
    let ms = MemSource::new(vec![1u8, 2, 3]);
    let mut br = BufReader::with_capacity(4, ms);
    let mut regions: Vec<Vec<u8>> = Vec::new();
    assert_eq!(br.read_vectored(&mut regions), Ok(0));
    assert_eq!(br.buffer(), &[1u8, 2, 3][..]);
}

#[test]
fn zero_capacity_always_bypasses() {
    let ms = MemSource::new(vec![1u8, 2, 3]);
    let mut br = BufReader::with_capacity(0, ms);

    let mut d = vec![0u8; 2];
    assert_eq!(br.read(&mut d), Ok(2));
    assert_eq!(d, vec![1u8, 2]);
    assert_eq!(br.buffer(), &[][..]);

    let mut empty: Vec<u8> = Vec::new();
    assert_eq!(br.read(&mut empty), Ok(0));

    let mut d2 = vec![0u8; 2];
    assert_eq!(br.read(&mut d2), Ok(1));
    assert_eq!(d2, vec![3u8, 0]);
}

#[test]
fn default_capacity_is_4096() {
    assert_eq!(bufreader::DEFAULT_CAPACITY, 4096);

    let mut data = Vec::new();
    let mut i = 0u8;
    while (i as usize) < 100 {
        data.push(i);
        i += 1;
    }
    let ms = MemSource::new(data);
    let mut br = BufReader::new(ms);
    let mut d = vec![0u8; 10];
    assert_eq!(br.read(&mut d), Ok(10));
    assert_eq!(d, vec![0u8, 1, 2, 3, 4, 5, 6, 7, 8, 9]);
    assert_eq!(br.buffer().len(), 90);
}

#[test]
fn source_accessors_reach_the_source() {
    let ms = MemSource::new(vec![1u8, 2, 3]);
    let mut br = BufReader::with_capacity(4, ms);
    assert_eq!(br.get_ref().remaining_len(), 3);

    let mut stolen = vec![0u8; 2];
    assert_eq!(br.get_mut().read(&mut stolen), Ok(2));
    assert_eq!(stolen, vec![1u8, 2]);

    let mut d = vec![0u8; 2];
    assert_eq!(br.read(&mut d), Ok(1));
    assert_eq!(d, vec![3u8, 0]);
}

#[test]
fn copy_helpers_work() {
    let src = vec![9u8, 8, 7, 6];
    let mut dest = vec![0u8; 3];
    bufreader::scatter::copy_into(&src, 1, 2, &mut dest);
    assert_eq!(dest, vec![8u8, 7, 0]);

    let regions = vec![vec![0u8; 2], vec![0u8; 3]];
    assert_eq!(bufreader::scatter::sum_lens(&regions), 5);

    let mut out = vec![vec![0u8; 2], vec![0u8; 2]];
    bufreader::scatter::scatter_from(&src, 0, 3, &mut out);
    assert_eq!(out, vec![vec![9u8, 8], vec![7u8, 0]]);
}

#[test]
fn buffer_usage_tracks_fill_and_consume() {
    let ms = MemSource::new(vec![1u8, 2, 3]);
    let mut br = BufReader::with_capacity(4, ms);
    assert_eq!(br.buffer_usage(), (0, 4));
    assert_eq!(br.fill_buf(), Ok(3));
    assert_eq!(br.buffer_usage(), (3, 4));
    br.consume(1);
    assert_eq!(br.buffer_usage(), (2, 4));
    br.consume(1000);
    assert_eq!(br.buffer_usage(), (0, 4));
}

#[test]
fn memsource_serves_prefixes_in_order() {
    let mut ms = MemSource::new(vec![10u8, 20, 30]);
    let mut d = vec![0u8; 2];
    assert_eq!(ms.read(&mut d), Ok(2));
    assert_eq!(d, vec![10u8, 20]);
    assert_eq!(ms.remaining_len(), 1);

    let mut regions = vec![vec![0u8; 2]];
    assert_eq!(ms.read_vectored(&mut regions), Ok(1));
    assert_eq!(regions, vec![vec![30u8, 0]]);
    assert_eq!(ms.remaining_len(), 0);
}
