use dsh_desktop::theme::{theme_patch, BLUE_FANTASY_DISABLED};

const DISABLED_ROW: &str = "- id: ui-skin-blue-fantasy\n  disabled: true";

#[test]
fn disabled_row_text() {
    assert_eq!(BLUE_FANTASY_DISABLED, DISABLED_ROW);
}

#[test]
fn enabling_removes_the_skin_row_and_its_body() {
    let existing = "# patch rows\n- id: ui-skin-blue-fantasy\n  disabled: true\n- id: ui-task-board\n  name: board\n";
    assert_eq!(
        theme_patch(existing, true),
        "# patch rows\n- id: ui-task-board\n  name: board\n"
    );
}

#[test]
fn enabling_removes_every_skin_row() {
    let existing = "- id: ui-skin-blue-fantasy\n  disabled: true\n# keep\n  - id: 'ui-skin-blue-fantasy'\n    disabled: true\n- id: locale\n";
    assert_eq!(theme_patch(existing, true), "# keep\n- id: locale\n");
}

#[test]
fn enabling_keeps_indented_lines_of_other_rows() {
    let existing = "- id: a\n  x: 1\n- id: ui-skin-blue-fantasy\n  disabled: true\n  more: 2\n- id: b\n  y: 2\n";
    assert_eq!(theme_patch(existing, true), "- id: a\n  x: 1\n- id: b\n  y: 2\n");
}

#[test]
fn enabling_an_empty_file() {
    assert_eq!(theme_patch("", true), "\n");
}

#[test]
fn enabling_without_skin_row_keeps_the_file() {
    assert_eq!(theme_patch("[]\n", true), "[]\n");
    assert_eq!(theme_patch("# only a comment", true), "# only a comment\n");
}

#[test]
fn enabling_reads_crlf_lines() {
    assert_eq!(theme_patch("a\r\nb\r\n", true), "a\nb\n");
}

#[test]
fn disabling_appends_after_other_rows() {
    let existing = "- id: ui-task-board\n  name: board\n";
    assert_eq!(
        theme_patch(existing, false),
        format!("- id: ui-task-board\n  name: board\n{}\n", DISABLED_ROW)
    );
}

#[test]
fn disabling_replaces_the_bare_empty_list() {
    let existing = "# no rows yet\n  []  \n# tail\n";
    assert_eq!(
        theme_patch(existing, false),
        format!("# no rows yet\n{}\n# tail\n", DISABLED_ROW)
    );
}

#[test]
fn disabling_replaces_only_the_first_empty_list() {
    assert_eq!(
        theme_patch("[]\n[]\n", false),
        format!("{}\n[]\n", DISABLED_ROW)
    );
}

#[test]
fn disabling_an_empty_file() {
    assert_eq!(theme_patch("", false), format!("\n{}\n", DISABLED_ROW));
}

#[test]
fn disabling_a_file_of_comments_appends() {
    assert_eq!(
        theme_patch("# a\n# b\n", false),
        format!("# a\n# b\n{}\n", DISABLED_ROW)
    );
}

#[test]
fn disabling_twice_keeps_one_row() {
    let once = theme_patch("- id: locale\n", false);
    let twice = theme_patch(&once, false);
    assert_eq!(once, twice);
    assert_eq!(twice.matches("ui-skin-blue-fantasy").count(), 1);
}

#[test]
fn disabling_replaces_an_old_skin_row() {
    let existing = "- id: ui-skin-blue-fantasy\n  disabled: false\n- id: locale\n";
    assert_eq!(
        theme_patch(existing, false),
        format!("- id: locale\n{}\n", DISABLED_ROW)
    );
}

#[test]
fn enabling_is_idempotent_on_a_sample() {
    let existing = "# c\n- id: ui-skin-blue-fantasy\n  disabled: true\n- id: x\n";
    let once = theme_patch(existing, true);
    assert_eq!(theme_patch(&once, true), once);
}

#[test]
fn disabling_then_enabling_matches_enabling() {
    let existing = "# c\n- id: x\n  y: 1\n";
    let off = theme_patch(existing, false);
    assert_eq!(theme_patch(&off, true), theme_patch(existing, true));
}

#[test]
fn non_ascii_lines_are_kept() {
    let existing = "# 主题 设置\n- id: ui-skin-blue-fantasy\n  disabled: true\n";
    assert_eq!(theme_patch(existing, true), "# 主题 设置\n");
}

#[test]
fn a_row_start_is_found_after_unicode_whitespace() {
    let existing = "\u{3000}- id: ui-skin-blue-fantasy\n";
    assert_eq!(theme_patch(existing, true), "\n");
}

#[test]
fn disabling_in_place_of_the_empty_list_then_enabling_drops_the_list() {
    let off = theme_patch("[]\n# c\n", false);
    assert_eq!(off, format!("{}\n# c\n", DISABLED_ROW));
    assert_eq!(theme_patch(&off, true), "# c\n");
    assert_eq!(theme_patch("[]\n# c\n", true), "[]\n# c\n");
}

#[test]
fn switching_off_keeps_a_single_skin_row() {
    for existing in ["", "# c\n", "- id: a\n", "[]\n", "- id: ui-skin-blue-fantasy\n- id: ui-skin-blue-fantasy\n"] {
        let off = theme_patch(existing, false);
        let rows = off
            .lines()
            .filter(|l| l.trim_start().starts_with("- id:") && l.contains("ui-skin-blue-fantasy"))
            .count();
        assert_eq!(rows, 1);
    }
}

#[test]
fn a_row_whose_id_only_contains_the_skin_id_is_kept() {
    let existing = "- id: ui-skin-blue-fantasy-dark\n  name: x\n";
    assert_eq!(theme_patch(existing, true), existing);
    assert_eq!(
        theme_patch(existing, false),
        format!("{}{}\n", existing, DISABLED_ROW)
    );
}

#[test]
fn quoted_skin_ids_are_the_skin_row() {
    assert_eq!(theme_patch("- id: \"ui-skin-blue-fantasy\"\n  disabled: true\n# c\n", true), "# c\n");
    assert_eq!(theme_patch("- id:   'ui-skin-blue-fantasy'  \n- id: x\n", true), "- id: x\n");
    assert_eq!(theme_patch("- id: ui-skin-blue-fantasy-2\n", true), "- id: ui-skin-blue-fantasy-2\n");
}

#[test]
fn sibling_rows_after_an_indented_skin_row_are_kept() {
    let existing = "plugins:\n  - id: ui-skin-blue-fantasy\n    disabled: true\n  - id: other\n";
    assert_eq!(theme_patch(existing, true), "plugins:\n  - id: other\n");
}

#[test]
fn deeper_rows_belong_to_the_skin_row_body() {
    let existing = "- id: ui-skin-blue-fantasy\n  config:\n    - id: nested\n      on: true\n- id: next\n  k: v\n";
    assert_eq!(theme_patch(existing, true), "- id: next\n  k: v\n");
}

#[test]
fn a_shallower_row_ends_the_body() {
    let existing = "    - id: ui-skin-blue-fantasy\n      disabled: true\n  - id: outer\n    z: 1\n";
    assert_eq!(theme_patch(existing, true), "  - id: outer\n    z: 1\n");
}

#[test]
fn enabling_then_disabling_matches_disabling() {
    for existing in ["", "# c\n", "- id: x\n", "[]\n", "- id: ui-skin-blue-fantasy\n  disabled: true\n[]\n"] {
        let on = theme_patch(existing, true);
        assert_eq!(theme_patch(&on, false), theme_patch(existing, false));
    }
}

#[test]
fn a_skin_row_with_a_trailing_comment_is_the_skin_row() {
    let existing = "- id: ui-skin-blue-fantasy # off\n";
    assert_eq!(theme_patch(existing, true), "\n");
    assert_eq!(theme_patch(existing, false), format!("\n{}\n", DISABLED_ROW));
    let existing = "- id: 'ui-skin-blue-fantasy'\t# keep off\n  disabled: true\n- id: x\n";
    assert_eq!(theme_patch(existing, true), "- id: x\n");
    assert_eq!(
        theme_patch(existing, false),
        format!("- id: x\n{}\n", DISABLED_ROW)
    );
}

#[test]
fn a_hash_inside_the_id_is_no_comment() {
    let existing = "- id: ui-skin-blue-fantasy#2\n";
    assert_eq!(theme_patch(existing, true), existing);
}
