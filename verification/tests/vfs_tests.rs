use p2p_share::cli::CommandType;
use p2p_share::vfs::{NameType, TextFile, VirtualFilesystem};

#[test]
fn test_textfile() {
    {
        let mut f1 = TextFile::new(NameType::new("moj.txt".to_string())).unwrap();
        assert!(f1.get_name() == "moj.txt");
        assert!(f1.read().is_empty());
        f1.append("newnew");
        assert!(f1.get_name() == "moj.txt");
        assert!(f1.read() == "newnew");
        f1.append("zxcvasdf");
        assert!(f1.get_name() == "moj.txt");
        assert!(f1.read() == "newnewzxcvasdf");
    }
    {
        let mut f2 = TextFile::with_data(NameType::new("mds.md".to_string()), "cos").unwrap();
        assert!(f2.get_name() == "mds.md");
        assert!(f2.read() == "cos");
        f2.append("newnew");
        assert!(f2.get_name() == "mds.md");
        assert!(f2.read() == "cosnewnew");
    }
    {
        let mut f3 = TextFile::with_data(NameType::new("mds.md".to_string()), "").unwrap();
        assert!(f3.get_name() == "mds.md");
        assert!(f3.read().is_empty());
        f3.append("newnew");
        assert!(f3.get_name() == "mds.md");
        assert!(f3.read() == "newnew");
    }
    {
        let wrong1 = TextFile::new(NameType::new("".to_string()));
        assert!(wrong1.is_err());
        let wrong2 = TextFile::with_data(NameType::new("".to_string()), "");
        assert!(wrong2.is_err());
    }
}

#[test]
fn test_directory() {
    let mut fs = VirtualFilesystem::new();
    let root = fs.root();
    {
        assert!(fs.get_name(root) == "root");
        assert!(fs.get_parent_directory(root).is_none());
        assert!(fs.dirs[root].subdirs.is_empty());
        assert!(fs.dirs[root].files.is_empty());
        assert!(fs.get_contents_string(root) == "Directories: [], Files: []".to_string());
    }
    {
        fs.add_file(root, "A1.txt".to_string()).expect("File should be created");
        fs.add_file(root, "A2.txt".to_string()).expect("File should be created");
        let r_err = fs.add_file(root, "A2.txt".to_string());
        assert!(r_err.is_err());
        assert!(fs.get_name(root) == "root");
        assert!(fs.get_parent_directory(root).is_none());
        assert!(fs.dirs[root].subdirs.is_empty());
        assert!(fs.dirs[root].files.len() == 2);
        assert!(
            fs.get_contents_string(root) == "Directories: [], Files: [A1.txt, A2.txt]".to_string()
        );
    }
    {
        fs.add_dir(root, "home".to_string()).expect("Directory should be created");
        fs.add_dir(root, "downloads".to_string()).expect("Directory should be created");
        let r_err = fs.add_dir(root, "downloads".to_string());
        assert!(r_err.is_err());
        assert!(fs.get_name(root) == "root");
        assert!(fs.get_parent_directory(root).is_none());
        assert!(fs.dirs[root].subdirs.len() == 2);
        assert!(fs.dirs[root].files.len() == 2);
        assert!(
            fs.get_contents_string(root)
                == "Directories: [downloads, home], Files: [A1.txt, A2.txt]".to_string()
        );
    }
    {
        fs.remove(root, &"home".to_string()).expect("Directory should be deleted");
        fs.remove(root, &"A1.txt".to_string()).expect("File should be deleted");
        let err_1 = fs.remove(root, &"fdszxv".to_string());
        let err_2 = fs.remove(root, &"A113d.txt".to_string());
        assert!(err_1.is_err());
        assert!(err_2.is_err());
        assert!(fs.get_name(root) == "root");
        assert!(fs.get_parent_directory(root).is_none());
        assert!(fs.dirs[root].subdirs.len() == 1);
        assert!(fs.dirs[root].files.len() == 1);
        assert!(
            fs.get_contents_string(root)
                == "Directories: [downloads], Files: [A2.txt]".to_string()
        );
    }
    {
        let no_file = fs.read_file(root, &"adf.txt".to_string());
        assert!(no_file.is_none());
        let no_dir = fs.get_directory(root, &"adf".to_string());
        assert!(no_dir.is_none());
    }
    {
        fs.add_dir(root, "tmp".to_string()).expect("Directory should be created");
        let tmp_dir = fs
            .get_directory(root, &"tmp".to_string())
            .expect("Directory tmp should be returned");
        fs.add_dir(tmp_dir, "tester".to_string()).expect("Directory should be created");
        let tester_dir = fs
            .get_directory(tmp_dir, &"tester".to_string())
            .expect("Directory tester should be returned");
        fs.add_dir(tester_dir, "t1".to_string()).expect("Directory should be created");
        fs.add_dir(tester_dir, "t2".to_string()).expect("Directory should be created");
        fs.add_file(tester_dir, "notepad.txt".to_string()).expect("File should be created");
        assert!(fs.append_to_file(tester_dir, &"notepad.txt".to_string(), "someasd "));
        assert!(fs.append_to_file(tester_dir, &"notepad.txt".to_string(), "dsdf"));
        assert!(fs.get_name(tester_dir) == "tester");
        let parent = fs
            .get_parent_directory(tester_dir)
            .expect("There should be parent directory");
        assert!(fs.get_name(parent) == "tmp");
        assert!(fs.dirs[tester_dir].subdirs.len() == 2);
        assert!(fs.dirs[tester_dir].files.len() == 1);
        assert!(
            fs.get_contents_string(tester_dir)
                == "Directories: [t1, t2], Files: [notepad.txt]".to_string()
        );
        assert!(
            fs.read_file(tester_dir, &"notepad.txt".to_string())
                .expect("There should be notepad.txt file")
                == "someasd dsdf"
        );
    }
}

#[test]
fn handle_command_walks_paths() {
    let mut fs = VirtualFilesystem::new();
    assert!(fs.handle_command(CommandType::Mkdir(vec!["tmp/tester".to_string()])).is_ok());
    assert!(fs.handle_command(CommandType::Touch(vec!["tmp/tester/notes.txt".to_string()])).is_ok());
    assert!(fs
        .handle_command(CommandType::Write("tmp/tester/notes.txt".to_string(), "abc".to_string()))
        .is_ok());
    assert_eq!(
        fs.handle_command(CommandType::Read(vec!["tmp/tester/notes.txt".to_string()])),
        Ok("abc\n".to_string())
    );
    assert!(fs.handle_command(CommandType::Cd("tmp".to_string())).is_ok());
    assert_eq!(
        fs.handle_command(CommandType::Ls(vec![])),
        Ok("Directories: [tester], Files: []".to_string())
    );
    assert!(fs.handle_command(CommandType::Cd("..".to_string())).is_ok());
    assert!(fs.handle_command(CommandType::Rm(vec!["tmp/tester/notes.txt".to_string()])).is_ok());
    assert!(fs.handle_command(CommandType::Read(vec!["tmp/tester/notes.txt".to_string()])).is_err());
    assert!(fs.handle_command(CommandType::Cd("missing".to_string())).is_err());
    assert!(fs.handle_command(CommandType::Exit).is_err());
}
