//! Tests of the program loader: parsing, positions, and bracket validation.

use btf::BrainFuckProgram;
use btf::RawInstructions;
use std::collections::HashMap;

#[test]
fn test_new_bf() {
    let test_filename = "testfilename";
    let test_content = "sometext\n><+-.,[]\ncomment <".to_string();
    let bf_program = BrainFuckProgram::new(test_filename.to_string(), test_content);
    assert_eq!(
        bf_program.filename(),
        test_filename,
        "Filename has to be {}.",
        test_filename,
    );
    assert_eq!(
        bf_program.instructions().len(),
        9,
        "Number of parsed instructions have to be 9",
    );

    let expected_lines: Vec<usize> = vec![2, 2, 2, 2, 2, 2, 2, 2, 3];
    let expected_positions: Vec<usize> = (1..10).collect();
    let mut actual_lines: Vec<usize> = Vec::new();
    let mut actual_positions: Vec<usize> = Vec::new();
    for instruction in bf_program.instructions() {
        actual_lines.push(instruction.line());
        actual_positions.push(instruction.position());
    }

    assert_eq!(expected_lines, actual_lines);
    assert_eq!(expected_positions, actual_positions);
}

#[test]
fn test_success_validate_brackets() {
    let test_filename = "testfilename";
    let test_content = "sometext\n><+-.,[]\ncomment <".to_string();
    let bf_program = BrainFuckProgram::new(test_filename.to_string(), test_content);
    let mapping: HashMap<usize, usize> = HashMap::from([(6, 7), (7, 6)]);
    assert_eq!(
        bf_program.validate_brackets(),
        Ok(mapping),
        "No errors during program parsing."
    )
}

#[test]
fn test_error_validate_brackets() {
    let test_filename = "testfilename";
    let test_content = "sometext\n><+-.,[[]\ncomment <".to_string();
    let bf_program = BrainFuckProgram::new(test_filename.to_string(), test_content);
    assert_eq!(
        bf_program.validate_brackets(),
        Err(
            "Error in input file, no close bracket found matching bracket at line 2 column 7."
                .to_string()
        ),
        "Error during program parsing."
    )
}

#[test]
fn test_error_validate_brackets_open_bracket_first() {
    let test_filename = "testfilename";
    let test_content = "sometext\n><+-.,][\ncomment <".to_string();
    let bf_program = BrainFuckProgram::new(test_filename.to_string(), test_content);
    assert_eq!(
        bf_program.validate_brackets(),
        Err(
            "Error in input file, no open bracket found matching bracket at line 2 column 7."
                .to_string()
        ),
        "Error during program parsing."
    )
}

#[test]
fn test_parse_never_fails_on_comments() {
    let bf_program = BrainFuckProgram::new("noise".to_string(), "no instructions here!".to_string());
    assert_eq!(bf_program.instructions().len(), 0);
    assert!(bf_program.brackets_map().is_empty());
}

#[test]
fn test_from_symbol() {
    assert_eq!(
        RawInstructions::from_symbol('>'),
        Some(RawInstructions::IncrementDataPointer)
    );
    assert_eq!(
        RawInstructions::from_symbol('<'),
        Some(RawInstructions::DecrementDataPointer)
    );
    assert_eq!(
        RawInstructions::from_symbol('+'),
        Some(RawInstructions::IncrementByte)
    );
    assert_eq!(
        RawInstructions::from_symbol('-'),
        Some(RawInstructions::DecrementByte)
    );
    assert_eq!(
        RawInstructions::from_symbol('.'),
        Some(RawInstructions::OutputByte)
    );
    assert_eq!(
        RawInstructions::from_symbol(','),
        Some(RawInstructions::AcceptByte)
    );
    assert_eq!(
        RawInstructions::from_symbol('['),
        Some(RawInstructions::ZeroJump)
    );
    assert_eq!(
        RawInstructions::from_symbol(']'),
        Some(RawInstructions::NonZeroJump)
    );
    assert_eq!(RawInstructions::from_symbol('x'), None);
}

#[test]
fn test_balanced_map_is_involutive() {
    let bf_program = BrainFuckProgram::new("pairs".to_string(), "[[][]]+[-]".to_string());
    let mapping = bf_program.validate_brackets().unwrap();
    for (open, close) in mapping.iter() {
        assert_eq!(mapping[close], *open);
    }
    assert_eq!(
        mapping,
        HashMap::from([(0, 5), (5, 0), (1, 2), (2, 1), (3, 4), (4, 3), (7, 9), (9, 7)])
    );
}

#[test]
fn test_no_brackets_validates_to_empty_map() {
    let bf_program = BrainFuckProgram::new("plain".to_string(), "+-<>.,".to_string());
    assert_eq!(bf_program.validate_brackets(), Ok(HashMap::new()));
}

#[test]
fn test_unmatched_open_reported_at_open_bracket() {
    let bf_program = BrainFuckProgram::new("dangling".to_string(), "+[".to_string());
    assert_eq!(
        bf_program.validate_brackets(),
        Err(
            "Error in input file, no close bracket found matching bracket at line 1 column 2."
                .to_string()
        )
    );
}

#[test]
fn test_unmatched_open_reports_innermost() {
    // Two dangling opens: the most recently opened one is named.
    let bf_program = BrainFuckProgram::new("dangling".to_string(), "[[".to_string());
    assert_eq!(
        bf_program.validate_brackets(),
        Err(
            "Error in input file, no close bracket found matching bracket at line 1 column 2."
                .to_string()
        )
    );
}

#[test]
fn test_unmatched_close_reported_at_close_bracket() {
    let bf_program = BrainFuckProgram::new("stray".to_string(), "]".to_string());
    assert_eq!(
        bf_program.validate_brackets(),
        Err(
            "Error in input file, no open bracket found matching bracket at line 1 column 1."
                .to_string()
        )
    );
}

#[test]
fn test_set_brackets_map_stores_the_mapping() {
    let mut bf_program = BrainFuckProgram::new("loop".to_string(), "[-]".to_string());
    assert!(bf_program.brackets_map().is_empty());
    let mapping = bf_program.validate_brackets().unwrap();
    bf_program.set_brackets_map(mapping);
    assert_eq!(bf_program.brackets_map(), &HashMap::from([(0, 2), (2, 0)]));
}

#[test]
fn test_error_positions_render_several_digits() {
    let content = format!("{}{}", "\n".repeat(11), "          ]");
    let bf_program = BrainFuckProgram::new("deep".to_string(), content);
    assert_eq!(
        bf_program.validate_brackets(),
        Err(
            "Error in input file, no open bracket found matching bracket at line 12 column 11."
                .to_string()
        )
    );
}

#[test]
fn test_descriptions() {
    let bf_program = BrainFuckProgram::new("describe".to_string(), "\n+".to_string());
    let instruction = &bf_program.instructions()[0];
    assert_eq!(instruction.instruction().description(), "Increment byte");
    assert_eq!(instruction.description(), "2:1] Increment byte");
    assert_eq!(
        RawInstructions::NonZeroJump.description(),
        "Non zero jump"
    );
}
