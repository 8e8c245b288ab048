use std::error::Error;

use file_analysis::mock_utils;
use file_analysis::read_fs;

#[test]
fn test_run_with_1_file() -> Result<(), Box<dyn Error>> {
    let (dir, mock_file_operations) = mock_utils::set_expect(0, 1);
    let entry = read_fs(dir, &mock_file_operations);
    assert_eq!(entry.len().0, 1024 * 1024_u64);
    if let Some(entries) = entry.entries() {
        let mut iter = entries.iter();
        let file = iter.next();
        assert_eq!(file.is_some(), true);
        let file = file.unwrap();
        assert_eq!(file.is_dir(), false);
        assert_eq!(file.len().0, 1024 * 1024_u64);
        assert_eq!(iter.next().is_none(), true);
        Ok(())
    } else {
        panic!("None should be some")
    }
}

#[test]
fn test_run_with_1_directory() -> Result<(), Box<dyn Error>> {
    let (dir, mock_file_operations) = mock_utils::set_expect(1, 0);
    let entry = read_fs(dir, &mock_file_operations);
    assert_eq!(entry.len().0, 0_u64);
    if let Some(entries) = entry.entries() {
        let mut iter = entries.iter();
        let child = iter.next();
        assert_eq!(child.is_some(), true);
        let child = child.unwrap();
        assert_eq!(child.is_dir(), true);
        assert_eq!(child.name(), "test\\");
        assert_eq!(child.len().0, 0_u64);
        assert_eq!(iter.next().is_none(), true);
        Ok(())
    } else {
        panic!("None should be some")
    }
}

#[test]
fn test_run_with_2_directory() -> Result<(), Box<dyn Error>> {
    let (dir, mock_file_operations) = mock_utils::set_expect(2, 0);
    let entry = read_fs(dir, &mock_file_operations);
    assert_eq!(entry.len().0, 0_u64);
    if let Some(entries) = entry.entries() {
        let mut iter = entries.iter();
        let child = iter.next();
        assert_eq!(child.is_some(), true);
        let entry = child.unwrap();
        assert_eq!(entry.name(), "test\\");
        assert_eq!(entry.is_dir(), true);

        let child = iter.next();
        assert_eq!(child.is_some(), true);
        let entry1 = child.unwrap();
        assert_eq!(entry1.name(), "test\\");
        assert_eq!(entry1.is_dir(), true);

        assert_eq!(iter.next().is_some(), false);
        Ok(())
    } else {
        panic!("None should be some")
    }
}

#[test]
fn test_run_with_1_directory_and_1_file() -> Result<(), Box<dyn Error>> {
    let (dir, mock_file_operations) = mock_utils::set_expect(1, 1);
    let entry = read_fs(dir, &mock_file_operations);
    assert_eq!(entry.len().0, 1024 * 1024_u64);
    if let Some(entries) = entry.entries() {
        let mut iter = entries.iter();

        let file = iter.next();
        assert_eq!(file.is_some(), true);
        let entry = file.unwrap();
        assert_eq!(entry.is_dir(), false);
        assert_eq!(entry.len().0, 1024 * 1024_u64);

        let rollup = iter.next();
        assert_eq!(rollup.is_some(), true);
        let child = rollup.unwrap();
        assert_eq!(child.name(), "test\\");
        assert_eq!(child.is_dir(), true);
        assert_eq!(child.len().0, 0_u64);
        Ok(())
    } else {
        panic!("None should be some")
    }
}

#[test]
fn test_run_with_2_directory_and_2_file() -> Result<(), Box<dyn Error>> {
    let (dir, mock_file_operations) = mock_utils::set_expect(2, 2);
    let entry = read_fs(dir, &mock_file_operations);
    assert_eq!(entry.len().0, 1024 * 1024_u64 * 2_u64);
    if let Some(entries) = entry.entries() {
        let mut iter = entries.iter();
        let file = iter.next();
        assert_eq!(file.is_some(), true);
        let entry = file.unwrap();
        assert_eq!(entry.is_dir(), false);
        assert_eq!(entry.len().0, 1024 * 1024_u64);
        let file = iter.next();
        assert_eq!(file.is_some(), true);
        let entry = file.unwrap();
        assert_eq!(entry.is_dir(), false);
        assert_eq!(entry.len().0, 1024 * 1024_u64);

        let child = iter.next();
        assert_eq!(child.is_some(), true);
        let child = child.unwrap();
        assert_eq!(child.is_dir(), true);
        assert_eq!(child.len().0, 0_u64);
        assert_eq!(child.name(), "test\\");

        let child = iter.next();
        assert_eq!(child.is_some(), true);
        let child = child.unwrap();
        assert_eq!(child.is_dir(), true);
        assert_eq!(child.len().0, 0_u64);
        assert_eq!(child.name(), "test\\");

        let child = iter.next();
        assert_eq!(child.is_some(), false);

        Ok(())
    } else {
        panic!("None should be some")
    }
}
