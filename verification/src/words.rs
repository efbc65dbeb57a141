//! Built-in word lists, in three sizes, and the convenience constructors
//! and generator that use them.

use vstd::prelude::*;
use crate::petnames::picked_from;
use crate::petnames::role_lists_of;
use crate::petnames::Petnames;
use crate::text::join_with;
use crate::text::split_whitespace_spec;

verus! {

pub const SMALL_ADJECTIVES: &'static str =
    "able brave calm deft eager fair glad happy jolly kind lively merry neat proud quick sharp sunny tidy warm wise";

pub const SMALL_ADVERBS: &'static str =
    "badly boldly daily fast gently gladly kindly lightly loudly neatly openly simply slowly softly truly";

pub const SMALL_NAMES: &'static str =
    "badger bee cat crane deer dove fox frog goat hare heron koala lark lion mole newt otter owl seal wren";

pub const MEDIUM_ADJECTIVES: &'static str =
    "able amber brave bright busy calm clever cosy deft eager fair fancy fond gentle glad golden grand happy jolly keen kind light lively loyal merry mild neat noble plain proud quick quiet rapid sharp shiny simple smart steady sunny swift tidy vivid warm wise young";

pub const MEDIUM_ADVERBS: &'static str =
    "badly barely boldly bravely briefly brightly calmly clearly daily dearly deeply dimly early easily fairly fast fondly freely gently gladly highly justly keenly kindly lightly loudly neatly nicely openly plainly quickly rarely sadly safely simply slowly softly soundly swiftly truly warmly wildly wisely";

pub const MEDIUM_NAMES: &'static str =
    "badger bass bear bee bison cat civet crab crane crow deer dingo dove duck eagle ferret finch fox frog gecko goat goose hare hawk heron hound ibis koala lark lemur lion llama mole moose moth newt otter owl panda pony quail raven robin seal shrew snipe stork swan tapir toad trout viper vole wren yak zebra";

pub const LARGE_ADJECTIVES: &'static str =
    "able active actual alert amber ample artful atomic awake aware balmy bold brainy brave breezy brief bright brisk busy calm candid caring casual cheery chief civil classic clean clear clever close comic cosy cuddly curious daring dashing dear decent deft direct dynamic eager earnest easy elegant endless epic equal exact expert fair faithful famous fancy fine firm fit fleet flexible fluent fond frank free fresh friendly full funny gentle giving glad golden good grand grateful great guided handy happy hardy healthy helpful honest humane ideal immense intense jolly joint keen kind knowing large lasting leading legal liberal light likely literal lively living logical loyal lucky magical main major mature measured merry mighty mild model modern modest moving mutual native natural neat neutral noble normal noted novel open optimal organic patient peaceful perfect pleasant poetic polite positive precise premium present pretty prime primary prompt proper proud pure quick quiet rapid rare ready real refined regular related relaxed rich robust romantic rugged ruling sacred safe saving secure select sensible settled sharp shining shiny simple sincere skilled smart smooth social solid sound special square stable steady sterling still striking strong subtle sunny superb sure sweet swift talented tender thorough tidy tight together tolerant top touching tough tranquil true trusty upright usable useful valid valued vast verbal viable vital vivid warm wealthy welcome whole willing winning wise witty workable worthy young";

pub const LARGE_ADVERBS: &'static str =
    "abruptly actually amply annually aptly badly barely blindly boldly bravely briefly brightly briskly broadly calmly candidly carefully casually cheaply cheerfully chiefly civilly cleanly clearly cleverly closely commonly constantly coolly correctly curiously daily dearly deeply deftly dimly directly duly eagerly early easily endlessly equally evenly exactly fairly faithfully famously fast finally finely firmly fitly fluently fondly formally formerly frankly freely freshly fully gamely generally gently gladly gradually greatly happily hardly heartily highly honestly hourly hugely humbly ideally immensely innocently instantly intensely jointly jovially joyfully justly keenly kindly lastly lately lightly likely literally lively locally loosely loudly loyally madly mainly manually merely mightily mildly modestly monthly mostly mutually namely naturally nearly neatly newly nicely nightly nimbly nobly normally notably officially openly overly partially partly patiently perfectly plainly politely positively precisely presently primarily promptly properly proudly purely quarterly quickly quietly rapidly rarely readily really regularly reliably richly rightly roughly routinely sadly safely secretly securely sensibly seriously sharply shortly shyly silently simply sincerely singly sleepily slowly smoothly socially softly solely solidly soundly specially speedily steadily sternly strictly strongly subtly suddenly surely sweetly swiftly tenderly thoroughly tightly totally truly truthfully usefully usually utterly vastly verbally vitally vividly voluntarily warmly weekly wholly widely wildly willingly wisely wonderfully yearly";

pub const LARGE_NAMES: &'static str =
    "akita alpaca anchovy ant antelope ape aphid asp badger barnacle basilisk bass bat beagle bear beaver bedbug bee beetle bengal bird bison bluebird bluegill boa boar bobcat bonefish buck buffalo bug bull bullfrog burro buzzard caiman calf camel cardinal caribou cat catfish cattle chamois cheetah chick chicken chigger chimp chipmunk chow cicada civet clam cobra cod collie colt condor coral cougar cow coyote crab crane crappie crawdad crayfish cricket crow cub dane deer dingo dodo doe dog dogfish dolphin donkey dory dove dragon drake drum duck duckling eagle earwig eel eft egret elephant elf elk emu escargot ewe falcon fawn feline ferret filly finch firefly fish flamingo flea flounder fly foal fowl fox frog gannet gar gazelle gecko gelding ghost gibbon giraffe glider gnat gnu goat gobbler goldfish goose gopher gorilla grackle grouse grub gull guppy haddock halibut hamster hare hawk hedgehog hen hermit heron herring hippo hog honeybee hookworm hornet horse hound humpback husky hyena ibex ibis iguana impala insect jackal jaguar javelin jay jaybird jennet joey kangaroo katydid kid killdeer kingfish kit kite kitten kiwi koala kodiak koi krill labrador ladybird ladybug lamb lamprey lark leech lemming lemur leopard liger lion lionfish lizard llama lobster locust longhorn loon louse lynx macaque macaw mackerel maggot magpie malamute mallard mammal mammoth manatee mantis marlin marmoset marmot marten mastiff mayfly meerkat midge mink minnow mite mole mollusk molly mongoose mongrel monitor monkey monster moose moray mosquito moth mouse mudfish mule mullet muskox muskrat mustang mutt narwhal newt nuthatch ocelot octopus opossum orca oriole oryx osprey ostrich otter owl ox oyster panda pangolin panther parakeet parrot peacock pegasus pelican penguin perch pheasant phoenix pig pigeon piglet pika pike piranha platypus polecat polliwog pony poodle porpoise possum prawn primate pug puma pup python quagga quail quetzal rabbit raccoon ram raptor rat rattler raven redbird reindeer reptile rhino ringtail robin rodent rooster roughy sailfish salmon satyr sawfish scorpion seagull seahorse seal serval shad shark sheep shepherd shiner shrew shrimp silkworm skink skunk skylark sloth slug snail snake snapper snipe sole sparrow spider sponge squid squirrel stag stallion starfish starling stingray stinkbug stork stud sturgeon sunbeam sunbird swan swift tadpole tahr tapir tarpon teal termite terrapin terrier tetra thrush tick tiger toad tomcat gazehound tortoise toucan treefrog troll trout tuna turkey turtle unicorn urchin vervet viper vole vulture wahoo wallaby walleye walrus warthog wasp weasel weevil whale whippet wildcat wolf wombat woodcock wren yak yeti zebra";

impl Petnames {
    /// Constructs a new `Petnames` from the small built-in word lists.
    pub fn small() -> (r: Petnames)
        ensures
            r.adj() == split_whitespace_spec(SMALL_ADJECTIVES@),
            r.adv() == split_whitespace_spec(SMALL_ADVERBS@),
            r.nam() == split_whitespace_spec(SMALL_NAMES@),
    {
        Petnames::new(SMALL_ADJECTIVES, SMALL_ADVERBS, SMALL_NAMES)
    }

    /// Constructs a new `Petnames` from the medium built-in word lists.
    pub fn medium() -> (r: Petnames)
        ensures
            r.adj() == split_whitespace_spec(MEDIUM_ADJECTIVES@),
            r.adv() == split_whitespace_spec(MEDIUM_ADVERBS@),
            r.nam() == split_whitespace_spec(MEDIUM_NAMES@),
    {
        Petnames::new(MEDIUM_ADJECTIVES, MEDIUM_ADVERBS, MEDIUM_NAMES)
    }

    /// Constructs a new `Petnames` from the large built-in word lists.
    pub fn large() -> (r: Petnames)
        ensures
            r.adj() == split_whitespace_spec(LARGE_ADJECTIVES@),
            r.adv() == split_whitespace_spec(LARGE_ADVERBS@),
            r.nam() == split_whitespace_spec(LARGE_NAMES@),
    {
        Petnames::new(LARGE_ADJECTIVES, LARGE_ADVERBS, LARGE_NAMES)
    }
}

impl Default for Petnames {
    /// Constructs a new `Petnames` from the default (small) word lists.
    fn default() -> (r: Self)
        ensures
            r.adj() == split_whitespace_spec(SMALL_ADJECTIVES@),
            r.adv() == split_whitespace_spec(SMALL_ADVERBS@),
            r.nam() == split_whitespace_spec(SMALL_NAMES@),
    {
        Petnames::small()
    }
}

/// Convenience function: one petname from the default word lists.
pub fn petname(words: u8, separator: &str) -> (r: String)
    ensures
        exists|ws: Seq<Seq<char>>|
            picked_from(
                role_lists_of(
                    split_whitespace_spec(SMALL_ADJECTIVES@),
                    split_whitespace_spec(SMALL_ADVERBS@),
                    split_whitespace_spec(SMALL_NAMES@),
                    words,
                ),
                ws,
            ) && r@ == join_with(ws, separator@),
{
    Petnames::default().generate_one(words, separator)
}

} // verus!
