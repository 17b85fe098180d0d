use gcd_service::characters::Constitution;
use gcd_service::characters::Dwarf;
use gcd_service::characters::Elf;
use gcd_service::characters::HalfOrc;
use gcd_service::characters::Human;
use gcd_service::pair::largest;
use gcd_service::pair::Pair;
use gcd_service::summary::NewsArticle;
use gcd_service::summary::Summary;
use gcd_service::summary::Tweet;
use gcd_service::tree::root;
use gcd_service::tree::Tree;

#[test]
fn constitution_bonuses() {
    let dwarf = Dwarf { name: String::from("NellDwaarf") };
    assert_eq!(dwarf.constitution_bonus(), 2);
    let horc = HalfOrc { name: String::from("NellHorc") };
    assert_eq!(horc.constitution_bonus(), 1);
    let elf = Elf { name: String::from("Elf") };
    assert_eq!(elf.constitution_bonus(), 0);
    let human = Human { name: String::from("Human") };
    assert_eq!(human.constitution_bonus(), 0);
}

#[test]
fn largest_of_numbers_and_chars() {
    let number_list = vec![34, 50, 25, 100, 65];
    assert_eq!(largest(&number_list), 100);
    let char_list = vec!['y', 'm', 'a', 'q'];
    assert_eq!(largest(&char_list), 'y');
}

#[test]
fn largest_of_single_element() {
    assert_eq!(largest(&[7u64]), 7);
}

#[test]
fn tweet_summary_uses_the_default_form() {
    let tweet = Tweet {
        username: String::from("horse_ebooks"),
        content: String::from("of course, as you probably already know, people"),
        reply: false,
        retweet: false,
    };
    assert_eq!(tweet.summarize_author(), "@horse_ebooks");
    assert_eq!(tweet.summarize(), "(Read more from @horse_ebooks...)");
}

#[test]
fn article_summary_is_its_own() {
    let article = NewsArticle {
        headline: String::from("Penguins win the Stanley Cup Championship!"),
        location: String::from("Pittsburgh, PA, USA"),
        author: String::from("Iceburgh"),
        content: String::from("The Pittsburgh Penguins once again are the best team."),
    };
    assert_eq!(article.summarize_author(), ">>>Iceburgh");
    assert_eq!(
        article.summarize(),
        "Penguins win the Stanley Cup Championship!, by Iceburgh (Pittsburgh, PA, USA)"
    );
}

#[test]
fn pair_keeps_its_members() {
    let pair = Pair::new(2, 6);
    assert_eq!(pair.x, 2);
    assert_eq!(pair.y, 6);
    assert!(!pair.larger_is_x());
    assert!(Pair::new(6, 2).larger_is_x());
    assert!(Pair::new(4, 4).larger_is_x());
}

#[test]
fn trees_build_by_chaining() {
    let t = root(15)
        .left(root(12).right(13))
        .right(root(22).left(18).right(100));
    assert_eq!(t.root, 15);
    let left = t.left.as_ref().unwrap();
    assert_eq!(left.root, 12);
    assert!(left.left.is_none());
    assert_eq!(left.right.as_ref().unwrap().root, 13);
    let right = t.right.as_ref().unwrap();
    assert_eq!(right.root, 22);
    assert_eq!(right.left.as_ref().unwrap().root, 18);
    assert_eq!(right.right.as_ref().unwrap().root, 100);
}

#[test]
fn tree_from_value_and_default() {
    let t = Tree::from(5);
    assert_eq!(t.root, 5);
    assert!(t.left.is_none() && t.right.is_none());
    let d = Tree::default();
    assert_eq!(d.root, 0);
    assert!(d.left.is_none() && d.right.is_none());
}
