use paf_coverage::cigar::{parse_cigar, CigarOp, OpClass};
use paf_coverage::coverage::{apply_operations, update_coverage_vector, update_coverage_vector_total_overlap};
use paf_coverage::record::{parse_paf_line, ParseError};
use paf_coverage::table::CoverageTable;

#[test]
fn test_parse_paf_line() {
    let line = "query1\t100\t0\t100\t+\ttarget1\t1000\t100\t200\tcg:z:10M10X10=\tmore\tfields";
    let rec = parse_paf_line(line).unwrap();
    assert_eq!(rec.target_name, "target1");
    assert_eq!(rec.target_length, 1000);
    assert_eq!(rec.start, 100);
    assert_eq!(rec.end, 200);
    assert_eq!(rec.cigar.unwrap(), "10M10X10=");
}

#[test]
fn test_update_coverage_vector() {
    let mut coverage = vec![0; 300];
    update_coverage_vector(&mut coverage, "10M10X10=", 100);
    for i in 100..109 {
        assert_eq!(coverage[i], 1);
    }
    for i in 110..119 {
        assert_eq!(coverage[i], 0);
    }
    for i in 120..130 {
        assert_eq!(coverage[i], 1);
    }
}

#[test]
fn test_update_coverage_vector_total_overlap() {
    let mut coverage = vec![0; 300];
    update_coverage_vector_total_overlap(&mut coverage, 100, 200);
    for i in 100..200 {
        assert_eq!(coverage[i], 1);
    }
    for i in 200..300 {
        assert_eq!(coverage[i], 0);
    }
}

fn line_with(fields: &[&str]) -> String {
    fields.join("\t")
}

#[test]
fn operations_fill_exact_ranges() {
    let mut coverage = vec![0u32; 300];
    update_coverage_vector(&mut coverage, "10M10X10=", 100);
    for (i, c) in coverage.iter().enumerate() {
        let want = if (100..110).contains(&i) || (120..130).contains(&i) { 1 } else { 0 };
        assert_eq!(*c, want, "position {}", i);
    }
}

#[test]
fn span_fills_exact_range() {
    let mut coverage = vec![0u32; 300];
    update_coverage_vector_total_overlap(&mut coverage, 100, 200);
    for (i, c) in coverage.iter().enumerate() {
        assert_eq!(*c, if (100..200).contains(&i) { 1 } else { 0 });
    }
}

#[test]
fn counting_twice_doubles() {
    let mut a = vec![0u32; 300];
    update_coverage_vector(&mut a, "10M10X10=", 100);
    update_coverage_vector(&mut a, "10M10X10=", 100);
    assert_eq!(a[100], 2);
    assert_eq!(a[115], 0);
    assert_eq!(a[129], 2);
    let mut b = vec![5u32; 10];
    update_coverage_vector_total_overlap(&mut b, 2, 4);
    update_coverage_vector_total_overlap(&mut b, 2, 4);
    assert_eq!(b, vec![5, 5, 7, 7, 5, 5, 5, 5, 5, 5]);
}

#[test]
fn increments_past_end_are_dropped() {
    let mut v = vec![0u32; 10];
    update_coverage_vector_total_overlap(&mut v, 8, 20);
    assert_eq!(v, vec![0, 0, 0, 0, 0, 0, 0, 0, 1, 1]);
    update_coverage_vector(&mut v, "5M", 7);
    assert_eq!(v, vec![0, 0, 0, 0, 0, 0, 0, 1, 2, 2]);
    let before = v.clone();
    update_coverage_vector_total_overlap(&mut v, 10, 50);
    update_coverage_vector(&mut v, "100M", 12);
    assert_eq!(v, before);
    assert_eq!(v.len(), 10);
}

#[test]
fn empty_span_and_no_matches_count_nothing() {
    let mut v = vec![0u32; 10];
    update_coverage_vector_total_overlap(&mut v, 6, 3);
    update_coverage_vector_total_overlap(&mut v, 4, 4);
    update_coverage_vector(&mut v, "4X3X", 0);
    update_coverage_vector(&mut v, "0M", 2);
    assert_eq!(v, vec![0u32; 10]);
}

#[test]
fn zero_length_vector_stays_empty() {
    let mut v: Vec<u32> = Vec::new();
    update_coverage_vector_total_overlap(&mut v, 0, 10);
    update_coverage_vector(&mut v, "10M", 0);
    assert!(v.is_empty());
}

#[test]
fn counts_hold_at_maximum() {
    let mut v = vec![u32::MAX, 7];
    update_coverage_vector_total_overlap(&mut v, 0, 2);
    assert_eq!(v, vec![u32::MAX, 8]);
}

#[test]
fn cursor_moves_over_mismatch_runs() {
    let mut v = vec![0u32; 12];
    update_coverage_vector(&mut v, "2=3X2M", 1);
    assert_eq!(v, vec![0, 1, 1, 0, 0, 0, 1, 1, 0, 0, 0, 0]);
}

#[test]
fn apply_operations_on_parsed_runs() {
    let ops = vec![
        CigarOp { len: 3, class: OpClass::Match },
        CigarOp { len: 2, class: OpClass::Mismatch },
        CigarOp { len: 1, class: OpClass::Equal },
    ];
    let mut v = vec![0u32; 8];
    apply_operations(&mut v, &ops, 1);
    assert_eq!(v, vec![0, 1, 1, 1, 0, 0, 1, 0]);
}

#[test]
fn huge_run_lengths_saturate() {
    let ops = parse_cigar("99999999999999999999999M");
    assert_eq!(ops, vec![CigarOp { len: usize::MAX, class: OpClass::Match }]);
    let mut v = vec![0u32; 4];
    update_coverage_vector(&mut v, "1X99999999999999999999999M2M", 0);
    assert_eq!(v, vec![0, 1, 1, 1]);
}

#[test]
fn parse_cigar_reads_runs() {
    let ops = parse_cigar("10M10X10=");
    assert_eq!(
        ops,
        vec![
            CigarOp { len: 10, class: OpClass::Match },
            CigarOp { len: 10, class: OpClass::Mismatch },
            CigarOp { len: 10, class: OpClass::Equal },
        ]
    );
    assert_eq!(parse_cigar(""), vec![]);
    assert_eq!(parse_cigar("3S5M2I"), vec![CigarOp { len: 5, class: OpClass::Match }]);
    assert_eq!(parse_cigar("M12Y3="), vec![CigarOp { len: 3, class: OpClass::Equal }]);
}

#[test]
fn parse_cigar_agrees_with_pattern() {
    let re = regex::Regex::new(r"(\d+)([MX=])").unwrap();
    for s in ["10M10X10=", "3S5M2I7X", "M12Y3=", "007M1D2=", "5", "=X4", "1M2M3X:9="] {
        let want: Vec<(usize, char)> = re
            .captures_iter(s)
            .map(|c| (c[1].parse().unwrap(), c[2].chars().next().unwrap()))
            .collect();
        let got: Vec<(usize, char)> = parse_cigar(s)
            .iter()
            .map(|op| {
                let ch = match op.class {
                    OpClass::Match => 'M',
                    OpClass::Mismatch => 'X',
                    OpClass::Equal => '=',
                };
                (op.len, ch)
            })
            .collect();
        assert_eq!(got, want, "{}", s);
    }
}

#[test]
fn parse_reports_each_error() {
    let short = line_with(&["q", "1", "0", "1", "+", "t", "10", "0"]);
    assert_eq!(parse_paf_line(&short).err(), Some(ParseError::TooFewFields));
    assert_eq!(parse_paf_line("").err(), Some(ParseError::TooFewFields));
    let bad_len = line_with(&["q", "1", "0", "1", "+", "t", "ten", "0", "5"]);
    assert_eq!(parse_paf_line(&bad_len).err(), Some(ParseError::BadTargetLength));
    let huge_len = line_with(&["q", "1", "0", "1", "+", "t", "99999999999999999999999", "0", "5"]);
    assert_eq!(parse_paf_line(&huge_len).err(), Some(ParseError::BadTargetLength));
    let bad_start = line_with(&["q", "1", "0", "1", "+", "t", "10", "-1", "5"]);
    assert_eq!(parse_paf_line(&bad_start).err(), Some(ParseError::BadStart));
    let bad_end = line_with(&["q", "1", "0", "1", "+", "t", "10", "0", ""]);
    assert_eq!(parse_paf_line(&bad_end).err(), Some(ParseError::BadEnd));
}

#[test]
fn parse_without_tag_and_with_plus_sign() {
    let line = line_with(&["q", "1", "0", "1", "+", "chr1", "+10", "007", "9", "NM:i:0"]);
    let rec = parse_paf_line(&line).unwrap();
    assert_eq!(rec.target_name, "chr1");
    assert_eq!(rec.target_length, 10);
    assert_eq!(rec.start, 7);
    assert_eq!(rec.end, 9);
    assert_eq!(rec.cigar, None);
}

#[test]
fn parse_takes_first_tag_up_to_next_colon() {
    let line = line_with(&["q", "1", "0", "1", "+", "t", "10", "0", "5", "cg:z:5M:junk", "cg:z:9M"]);
    assert_eq!(parse_paf_line(&line).unwrap().cigar.unwrap(), "5M");
    let empty = line_with(&["q", "1", "0", "1", "+", "t", "10", "0", "5", "cg:z:"]);
    assert_eq!(parse_paf_line(&empty).unwrap().cigar.unwrap(), "");
    let upper = line_with(&["q", "1", "0", "1", "+", "t", "10", "0", "5", "CG:Z:5M"]);
    assert_eq!(parse_paf_line(&upper).unwrap().cigar, None);
}

#[test]
fn missing_tag_fails_only_in_operation_mode() {
    let line = line_with(&["q", "1", "0", "1", "+", "t", "10", "2", "5"]);
    let mut table = CoverageTable::new();
    assert_eq!(table.add_line(&line, false), Err(ParseError::MissingCigar));
    assert_eq!(table.len(), 0);
    assert_eq!(table.add_line(&line, true), Ok(()));
    assert_eq!(table.len(), 1);
    assert_eq!(table.target_counts(0), &vec![0, 0, 1, 1, 1, 0, 0, 0, 0, 0]);
}

#[test]
fn same_target_records_sum_into_first_size() {
    let a = line_with(&["q1", "1", "0", "1", "+", "t", "6", "1", "4", "cg:z:3M"]);
    let b = line_with(&["q2", "1", "0", "1", "+", "t", "100", "2", "9", "cg:z:7M"]);
    let c = line_with(&["q3", "1", "0", "1", "+", "u", "3", "0", "3", "cg:z:1M1X1="]);
    let mut table = CoverageTable::new();
    assert_eq!(table.add_line(&a, false), Ok(()));
    assert_eq!(table.add_line(&b, false), Ok(()));
    assert_eq!(table.add_line(&c, false), Ok(()));
    assert_eq!(table.len(), 2);
    assert_eq!(table.target_name(0), "t");
    assert_eq!(table.target_counts(0), &vec![0, 1, 2, 2, 1, 1]);
    assert_eq!(table.target_name(1), "u");
    assert_eq!(table.target_counts(1), &vec![1, 0, 1]);
}

#[test]
fn bad_line_leaves_table_unchanged() {
    let a = line_with(&["q1", "1", "0", "1", "+", "t", "4", "0", "4"]);
    let mut table = CoverageTable::new();
    table.add_line(&a, true).unwrap();
    let bad = line_with(&["q1", "1", "0", "1", "+", "t", "4", "x", "4"]);
    assert_eq!(table.add_line(&bad, true), Err(ParseError::BadStart));
    assert_eq!(table.len(), 1);
    assert_eq!(table.target_counts(0), &vec![1, 1, 1, 1]);
}

#[test]
fn bed_records_list_every_position() {
    let mut table = CoverageTable::new();
    table.add_span(&"chr2".to_string(), 3, 1, 2);
    let recs = table.bed_records(0);
    assert_eq!(recs.len(), 3);
    for (i, r) in recs.iter().enumerate() {
        assert_eq!(r.target, "chr2");
        assert_eq!(r.start, i);
        assert_eq!(r.end, i + 1);
        assert_eq!(r.count, if i == 1 { 1 } else { 0 });
    }
}

#[test]
fn zero_length_target_emits_nothing() {
    let line = line_with(&["q", "1", "0", "1", "+", "empty", "0", "0", "5", "cg:z:5M"]);
    let mut table = CoverageTable::new();
    table.add_line(&line, false).unwrap();
    table.add_line(&line, true).unwrap();
    assert_eq!(table.len(), 1);
    assert!(table.target_counts(0).is_empty());
    assert!(table.bed_records(0).is_empty());
}

#[test]
fn add_ops_counts_runs() {
    let mut table = CoverageTable::new();
    let ops = parse_cigar("1M1X2=");
    table.add_ops(&"t".to_string(), 5, &ops, 1);
    assert_eq!(table.find(&"t".to_string()), Some(0));
    assert_eq!(table.find(&"s".to_string()), None);
    assert_eq!(table.target_counts(0), &vec![0, 1, 0, 1, 1]);
}
