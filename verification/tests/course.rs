use auto_boya::course::{
    collect_courses, field_value, name_and_type, parse_course, seats_free, validate_index, Course,
};

use nom::{
    bytes::complete::{tag, take_until},
    character::complete::u16 as nom_u16,
    combinator::rest,
    sequence::{separated_pair, tuple},
    IResult,
};

const STRS1: &str = "可选\n生命在于睡好 博雅课程-安全健康\n地点：学院路新主楼第二报告厅\n教师：唐林\n学院：学生工作部（处）/武装部\n开始：2023-10-26 14:00\n结束：2023-10-26 15:40\n校区：全部校区\n学院：全部学院\n年级：全部年级\n人群：全部人群\n选课方式：直接选课\n选课开始：2023-10-24 11:00\n选课结束：2023-10-25 18:00\n退选截止：2023-10-25 18:00\n无作业\n120/120\n详细介绍";
const STRS2: &str = "可选\n中法大讲堂名师讲坛系列讲座第二期 博雅课程-德育\n地点：北京航空航天大学学院路校区二号教学楼305教室\n教师：孙大坤\n学院：中法工程师学院\n开始：2023-10-25 14:30\n结束：2023-10-25 16:30\n校区：全部校区\n学院：全部学院\n年级：全部年级\n人群：全部人群\n选课方式：直接选课\n选课开始：2023-10-24 10:00\n选课结束：2023-10-25 10:00\n退选截止：2023-10-25 13:00\n无作业\n97/100\n详细介绍";

// The same readers written with nom's combinators, to compare against.
fn nom_seats(i: &str) -> IResult<&str, bool> {
    nom::combinator::map(separated_pair(nom_u16, tag("/"), nom_u16), |x| x.0 < x.1)(i)
}
fn nom_field(i: &str) -> IResult<&str, &str> {
    nom::combinator::map(tuple((take_until("："), tag("："), rest)), |x| x.2)(i)
}
fn nom_name_type(i: &str) -> IResult<&str, (&str, &str)> {
    nom::combinator::map(
        tuple((take_until(" 博雅课程-"), tag(" 博雅课程-"), rest)),
        |x| (x.0, x.2),
    )(i)
}

#[test]
fn test_term() {
    let (rest, v) = parse_course(STRS1, 0);
    assert_eq!(rest, "详细介绍");
    assert!(v.is_none());
    let (rest, v) = parse_course(STRS2, 1);
    assert_eq!(rest, "详细介绍");
    let v = v.unwrap();
    assert_eq!(
        v,
        Course {
            index: 1,
            state: "可选".to_string(),
            t: "德育".to_string(),
            name: "中法大讲堂名师讲坛系列讲座第二期".to_string(),
            ad: "北京航空航天大学学院路校区二号教学楼305教室".to_string(),
            st: "2023-10-25 14:30".to_string(),
            ct: "2023-10-24 10:00".to_string(),
        }
    );
}

#[test]
fn preview_course_is_shown() {
    let text = STRS2.replacen("可选", "预告", 1);
    let (_, v) = parse_course(&text, 7);
    let v = v.unwrap();
    assert_eq!(v.state, "预告");
    assert_eq!(v.index, 7);
}

#[test]
fn other_state_is_not_shown() {
    let text = STRS2.replacen("可选", "已满", 1);
    let (rest, v) = parse_course(&text, 0);
    assert_eq!(rest, "详细介绍");
    assert!(v.is_none());
    // Two lines are enough for a course in another state.
    let (rest, v) = parse_course("结束\na 博雅课程-b\n", 3);
    assert_eq!(rest, "");
    assert!(v.is_none());
}

#[test]
fn seats_cases() {
    assert_eq!(seats_free("97/100"), Some((String::new(), true)));
    assert_eq!(seats_free("120/120"), Some((String::new(), false)));
    assert_eq!(seats_free("12/3abc"), Some(("abc".to_string(), false)));
    assert_eq!(seats_free("0/1 left"), Some((" left".to_string(), true)));
    assert_eq!(seats_free("0065535/65535"), Some((String::new(), false)));
    assert_eq!(seats_free("65534/65535"), Some((String::new(), true)));
    assert_eq!(seats_free("/3"), None);
    assert_eq!(seats_free("3"), None);
    assert_eq!(seats_free("3/"), None);
    assert_eq!(seats_free("3-4"), None);
    assert_eq!(seats_free("65536/1"), None);
    assert_eq!(seats_free("1/65536"), None);
    assert_eq!(seats_free("+1/2"), None);
    assert_eq!(seats_free(""), None);
    assert_eq!(seats_free("１/2"), None);
}

#[test]
fn seats_agree_with_nom() {
    let inputs = [
        "97/100", "120/120", "12/3abc", "0/1 left", "0065535/65535", "65534/65535", "/3", "3",
        "3/", "3-4", "65536/1", "1/65536", "+1/2", "", "１/2", "99999999/1", "5/5/5", "7/08",
    ];
    for i in inputs {
        let ours = seats_free(i);
        let theirs = nom_seats(i).ok().map(|(r, b)| (r.to_string(), b));
        assert_eq!(ours, theirs, "on {i:?}");
    }
}

#[test]
fn field_cases() {
    assert_eq!(field_value("地点：学院路"), Some("学院路".to_string()));
    assert_eq!(field_value("a：b：c"), Some("b：c".to_string()));
    assert_eq!(field_value("：x"), Some("x".to_string()));
    assert_eq!(field_value("x："), Some(String::new()));
    assert_eq!(field_value("no colon: here"), None);
    assert_eq!(field_value(""), None);
}

#[test]
fn field_agrees_with_nom() {
    let inputs = ["地点：学院路", "a：b：c", "：x", "x：", "no colon: here", "", "开始：2023-10-25 14:30"];
    for i in inputs {
        let ours = field_value(i);
        let theirs = nom_field(i).ok().map(|(_, v)| v.to_string());
        assert_eq!(ours, theirs, "on {i:?}");
    }
}

#[test]
fn name_type_cases() {
    assert_eq!(
        name_and_type("生命在于睡好 博雅课程-安全健康"),
        Some(("生命在于睡好".to_string(), "安全健康".to_string()))
    );
    assert_eq!(
        name_and_type("a 博雅课程-b 博雅课程-c"),
        Some(("a".to_string(), "b 博雅课程-c".to_string()))
    );
    assert_eq!(name_and_type("a博雅课程-b"), None);
    assert_eq!(name_and_type(" 博雅课程-"), Some((String::new(), String::new())));
    assert_eq!(name_and_type(" 博雅课程"), None);
}

#[test]
fn name_type_agrees_with_nom() {
    let inputs = [
        "生命在于睡好 博雅课程-安全健康",
        "a 博雅课程-b 博雅课程-c",
        "a博雅课程-b",
        " 博雅课程-",
        " 博雅课程",
        "",
        "  博雅课程-x",
    ];
    for i in inputs {
        let ours = name_and_type(i);
        let theirs = nom_name_type(i).ok().map(|(_, (n, t))| (n.to_string(), t.to_string()));
        assert_eq!(ours, theirs, "on {i:?}");
    }
}

#[test]
fn collect_keeps_shown_rows_in_order() {
    let preview = STRS2.replacen("可选", "预告", 1);
    let rows = vec![STRS1.to_string(), STRS2.to_string(), "结束\na 博雅课程-b\n".to_string(), preview];
    let courses = collect_courses(&rows).unwrap();
    assert_eq!(courses.len(), 2);
    assert_eq!(courses[0].index, 1);
    assert_eq!(courses[0].state, "可选");
    assert_eq!(courses[1].index, 3);
    assert_eq!(courses[1].state, "预告");
    assert_eq!(collect_courses(&Vec::new()), Ok(Vec::new()));
}

#[test]
fn collect_reports_first_unreadable_row() {
    // No type on the name line.
    let rows = vec![STRS1.to_string(), "可选\nno type here\n".to_string(), "x".to_string()];
    assert_eq!(collect_courses(&rows), Err(1));
    // Fewer than two lines.
    let rows = vec!["只有一行".to_string()];
    assert_eq!(collect_courses(&rows), Err(0));
    // An open course without its seats line.
    let rows = vec!["可选\na 博雅课程-b\nc\n".to_string()];
    assert_eq!(collect_courses(&rows), Err(0));
    // An open course with a free seat but no address value.
    let broken = STRS2.replacen("地点：", "地点", 1);
    let rows = vec![STRS2.to_string(), broken];
    assert_eq!(collect_courses(&rows), Err(1));
    // The same line without a free seat is never read further.
    let full = STRS1.replacen("地点：", "地点", 1);
    assert_eq!(collect_courses(&vec![full]), Ok(Vec::new()));
}

#[test]
fn index_validation() {
    assert_eq!(validate_index(0, 3), Ok(()));
    assert_eq!(validate_index(2, 3), Ok(()));
    assert_eq!(validate_index(3, 3), Err("Invalid input. It is out of range".to_string()));
    assert_eq!(validate_index(0, 0), Err("Invalid input. It is out of range".to_string()));
}
