use eww::file_database::{CodeSource, FileDatabase};
use eww::files::FileError;
use eww::scss_provider::ScssFiles;

#[test]
fn file_database_lines() {
    let mut db = FileDatabase::new();
    let id = db.insert_string("a.yuck".to_string(), "ab\ncd\n\nä".to_string());
    assert_eq!(id, 0);
    assert_eq!(db.name(id).unwrap(), "a.yuck");
    assert_eq!(db.get_file(id).unwrap().line_starts, vec![0, 3, 6, 7]);
    assert_eq!(db.line_index(id, 0).unwrap(), 0);
    assert_eq!(db.line_index(id, 2).unwrap(), 0);
    assert_eq!(db.line_index(id, 3).unwrap(), 1);
    assert_eq!(db.line_index(id, 100).unwrap(), 3);
    assert_eq!(db.line_range(id, 1).unwrap(), 3..6);
    assert_eq!(db.line_range(id, 3).unwrap(), 7..9);
    assert_eq!(db.line_range(id, 4), Err(FileError::LineTooLarge { given: 5, max: 3 }));
    assert_eq!(db.line_range(id, 6), Err(FileError::LineTooLarge { given: 6, max: 3 }));
    assert!(matches!(db.source(id).unwrap(), CodeSource::Literal(s) if s == "ab\ncd\n\nä"));
    let second = db.insert_file(std::path::PathBuf::from("/x/b.yuck"), "b.yuck".to_string(), "x");
    assert_eq!(second, 1);
    db.unload(id);
    assert_eq!(db.name(id), Err(FileError::FileMissing));
    assert_eq!(db.line_index(id, 0), Err(FileError::FileMissing));
    assert!(matches!(db.source(second).unwrap(), CodeSource::File(p) if p.to_str() == Some("/x/b.yuck")));
}

#[test]
fn scss_files_lines() {
    let mut files = ScssFiles::new();
    let id = files.insert_loaded_file(std::path::PathBuf::from("/c/eww.scss"), "eww.scss".to_string(), "a {}\nb {}");
    assert_eq!(files.name(id).unwrap(), "eww.scss");
    assert_eq!(files.line_index(id, 6).unwrap(), 1);
    assert_eq!(files.line_range(id, 0).unwrap(), 0..5);
    assert_eq!(files.source(id).unwrap().to_str(), Some("/c/eww.scss"));
    files.unload(id);
    assert_eq!(files.get_file(id).err(), Some(FileError::FileMissing));
}
